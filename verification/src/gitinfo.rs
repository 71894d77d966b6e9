//! The version that a build is given: its tag, and where it came from.

use crate::munge::{
    channel, channel_of, is_tag, law_seal_tag_fixes_tags, law_version_tag_is_safe, sealed_tag,
    tag_char, tag_of, version_tag,
};
use crate::outside::{debug_str, debug_text};
use crate::text::{cat2, cat3, has_prefix, is_space, str_eq, trim, trim_by};
use vstd::prelude::*;

verus! {

/// The identity of a build. `tag` is part of the object key and is sealed in the binary; `channel` is `release` or `dev`.
pub struct BuildTag {
    pub tag: String,
    pub channel: &'static str,
    pub commit: Option<String>,
    pub dirty: bool,
}

#[verifier::ext_equal]
pub struct BuildTagView {
    pub tag: Seq<char>,
    pub channel: Seq<char>,
    pub commit: Option<Seq<char>>,
    pub dirty: bool,
}

impl DeepView for BuildTag {
    type V = BuildTagView;

    open spec fn deep_view(&self) -> BuildTagView {
        BuildTagView {
            tag: self.tag@,
            channel: self.channel@,
            commit: self.commit.deep_view(),
            dirty: self.dirty,
        }
    }
}

/// The state of the working tree.
pub struct GitState {
    pub branch: String,
    pub commit: String,
    pub dirty: bool,
}

#[verifier::ext_equal]
pub struct GitStateView {
    pub branch: Seq<char>,
    pub commit: Seq<char>,
    pub dirty: bool,
}

impl DeepView for GitState {
    type V = GitStateView;

    open spec fn deep_view(&self) -> GitStateView {
        GitStateView {
            branch: self.branch@,
            commit: self.commit@,
            dirty: self.dirty,
        }
    }
}

/// What `git` answered to one question; nothing where it failed.
pub open spec fn trimmed(o: Option<Seq<char>>) -> Option<Seq<char>> {
    match o {
        Some(s) => Some(trim_by(s, is_space())),
        None => None,
    }
}

pub open spec fn or_empty(o: Option<Seq<char>>) -> Seq<char> {
    match o {
        Some(s) => s,
        None => Seq::empty(),
    }
}

/// The state from what `git` printed: whether this is a working tree, the branch,
/// the short commit and the changed files. Outside a working tree there is none.
pub open spec fn state_of(
    inside: Option<Seq<char>>,
    branch: Option<Seq<char>>,
    commit: Option<Seq<char>>,
    status: Option<Seq<char>>,
) -> Option<GitStateView> {
    if trimmed(inside) == Some("true"@) {
        Some(
            GitStateView {
                branch: or_empty(trimmed(branch)),
                commit: or_empty(trimmed(commit)),
                dirty: or_empty(trimmed(status)).len() > 0,
            },
        )
    } else {
        None
    }
}

fn trim_or_empty(o: &Option<String>) -> (r: String)
    ensures
        r@ == or_empty(trimmed(o.deep_view())),
{
    match o {
        Some(s) => trim(s.as_str()),
        None => {
            let s: String = String::new();
            proof {
                assert(s@ =~= Seq::<char>::empty());
            }
            s
        },
    }
}

/// The state from what `git` printed.
pub fn git_state(
    inside: &Option<String>,
    branch: &Option<String>,
    commit: &Option<String>,
    status: &Option<String>,
) -> (r: Option<GitState>)
    ensures
        r.deep_view() == state_of(
            inside.deep_view(),
            branch.deep_view(),
            commit.deep_view(),
            status.deep_view(),
        ),
{
    let word: String = trim_or_empty(inside);
    proof {
        reveal_strlit("true");
        assert("true"@.len() == 4);
        assert(trimmed(inside.deep_view()) == Some("true"@) <==> word@ == "true"@);
    }
    if str_eq(word.as_str(), "true") {
        let changes: String = trim_or_empty(status);
        let dirty: bool = !changes.as_str().is_empty();
        Some(GitState { branch: trim_or_empty(branch), commit: trim_or_empty(commit), dirty })
    } else {
        None
    }
}

/// Whether a clean build on this branch is a release.
pub open spec fn is_release_branch(b: Seq<char>) -> bool {
    b == "main"@ || b == "master"@
}

/// The commit that a build is said to come from.
pub open spec fn commit_in(st: Option<GitStateView>) -> Option<Seq<char>> {
    match st {
        Some(s) => if s.commit.len() > 0 {
            Some(s.commit)
        } else {
            None
        },
        None => None,
    }
}

pub open spec fn dirty_in(st: Option<GitStateView>) -> bool {
    st matches Some(s) && s.dirty
}

/// Outside a working tree every build is taken for one on a release branch.
pub open spec fn on_release(st: Option<GitStateView>) -> bool {
    st matches Some(s) ==> is_release_branch(s.branch)
}

/// What a build may do.
pub enum Resolved {
    /// Build it as this.
    Tag(BuildTag),
    /// Do not build.
    Refused(String),
    /// Build it as this once the prompt has been answered with yes.
    Ask(String, BuildTag),
}

pub enum ResolvedView {
    Tag(BuildTagView),
    Refused(Seq<char>),
    Ask(Seq<char>, BuildTagView),
}

impl DeepView for Resolved {
    type V = ResolvedView;

    open spec fn deep_view(&self) -> ResolvedView {
        match self {
            Resolved::Tag(t) => ResolvedView::Tag(t.deep_view()),
            Resolved::Refused(m) => ResolvedView::Refused(m@),
            Resolved::Ask(p, t) => ResolvedView::Ask(p@, t.deep_view()),
        }
    }
}

pub const DIRTY: &'static str =
    "error: working tree has uncommitted changes that would be baked into the binary.\n  Commit them for a clean build, or pass --allow-dirty to build a dev version.";

pub open spec fn off_branch(branch: Seq<char>) -> Seq<char> {
    "warning: not on a release branch (on "@ + debug_text(branch)
        + "); this builds a DEV version, not a clean semver release.\nProceed? [y/N] "@
}

/// The slot of a development build: the given one, or the short commit, or
/// `local`.
pub open spec fn slot_of(dev_tag: Option<Option<Seq<char>>>, commit: Option<Seq<char>>) -> Seq<
    char,
> {
    let raw = match dev_tag {
        Some(Some(v)) => v,
        _ => or_empty(commit),
    };
    if tag_of(raw).len() > 0 {
        tag_of(raw)
    } else if tag_of(or_empty(commit)).len() > 0 {
        tag_of(or_empty(commit))
    } else {
        "local"@
    }
}

pub open spec fn dev_build(
    dev_tag: Option<Option<Seq<char>>>,
    st: Option<GitStateView>,
) -> BuildTagView {
    BuildTagView {
        tag: "dev-"@ + slot_of(dev_tag, commit_in(st)),
        channel: "dev"@,
        commit: commit_in(st),
        dirty: dirty_in(st),
    }
}

pub open spec fn release_build(semver: Seq<char>, st: Option<GitStateView>) -> BuildTagView {
    BuildTagView {
        tag: tag_of(semver),
        channel: "release"@,
        commit: commit_in(st),
        dirty: dirty_in(st),
    }
}

/// Whether a build of this tree is a release.
pub open spec fn is_release(
    dev_tag: Option<Option<Seq<char>>>,
    st: Option<GitStateView>,
) -> bool {
    on_release(st) && !dirty_in(st) && dev_tag is None
}

/// Why a tag is refused of which nothing is left in tag form.
pub open spec fn bad_tag(raw: Seq<char>) -> Seq<char> {
    "invalid tag "@ + debug_text(raw) + " (normalizes to empty)"@
}

/// The tag form of a tag that a user gives; one of which nothing is left is
/// refused.
pub fn user_tag(raw: &str) -> (r: Result<String, String>)
    ensures
        match r {
            Ok(t) => t@ == tag_of(raw@) && t@.len() > 0,
            Err(e) => tag_of(raw@).len() == 0 && e@ == bad_tag(raw@),
        },
{
    let t: String = version_tag(raw);
    if t.as_str().is_empty() {
        let q: String = debug_str(raw);
        Err(cat3("invalid tag ", q.as_str(), " (normalizes to empty)"))
    } else {
        Ok(t)
    }
}

/// The identity of a build. A tag that is forced wins, in tag form; where nothing is
/// left of it, it is refused. Otherwise, where the gates are on, a tree with changes
/// is refused unless they are allowed, and a branch that is no release branch is
/// asked about unless it was agreed to before.
pub open spec fn resolved(
    semver: Seq<char>,
    dev_tag: Option<Option<Seq<char>>>,
    allow_dirty: bool,
    yes: bool,
    gate: bool,
    st: Option<GitStateView>,
    forced: Option<Seq<char>>,
) -> ResolvedView {
    if forced matches Some(t) && t.len() > 0 {
        let tag = tag_of(forced->0);
        if tag.len() == 0 {
            ResolvedView::Refused(bad_tag(forced->0))
        } else {
            ResolvedView::Tag(
                BuildTagView {
                    tag,
                    channel: channel(tag),
                    commit: commit_in(st),
                    dirty: dirty_in(st),
                },
            )
        }
    } else if gate && dirty_in(st) && !allow_dirty {
        ResolvedView::Refused(DIRTY@)
    } else if is_release(dev_tag, st) {
        ResolvedView::Tag(release_build(semver, st))
    } else if gate && !on_release(st) && !yes {
        ResolvedView::Ask(off_branch(st->0.branch), dev_build(dev_tag, st))
    } else {
        ResolvedView::Tag(dev_build(dev_tag, st))
    }
}

fn known_commit(st: &Option<GitState>) -> (r: Option<String>)
    ensures
        r.deep_view() == commit_in(st.deep_view()),
{
    match st {
        Some(s) => if !s.commit.as_str().is_empty() {
            Some(s.commit.clone())
        } else {
            None
        },
        None => None,
    }
}

fn dev_slot(dev_tag: &Option<Option<String>>, commit: &Option<String>) -> (r: String)
    ensures
        r@ == slot_of(dev_tag.deep_view(), commit.deep_view()),
{
    let c: String = match commit {
        Some(c) => c.clone(),
        None => {
            let s: String = String::new();
            proof {
                assert(s@ =~= Seq::<char>::empty());
            }
            s
        },
    };
    let given: Option<&String> = match dev_tag {
        Some(Some(v)) => Some(v),
        _ => None,
    };
    let first: String = match given {
        Some(v) => version_tag(v.as_str()),
        None => version_tag(c.as_str()),
    };
    if !first.as_str().is_empty() {
        return first;
    }
    let second: String = version_tag(c.as_str());
    if !second.as_str().is_empty() {
        second
    } else {
        "local".to_owned()
    }
}

/// The identity of a build of version `semver` in the state `st`. `dev_tag` forces
/// a development build, whose slot it may name; `forced` forces the tag itself.
pub fn resolve(
    semver: &str,
    dev_tag: &Option<Option<String>>,
    allow_dirty: bool,
    yes: bool,
    gate: bool,
    st: &Option<GitState>,
    forced: &Option<String>,
) -> (r: Resolved)
    ensures
        r.deep_view() == resolved(
            semver@,
            dev_tag.deep_view(),
            allow_dirty,
            yes,
            gate,
            st.deep_view(),
            forced.deep_view(),
        ),
{
    let dirty: bool = match st {
        Some(s) => s.dirty,
        None => false,
    };
    let commit: Option<String> = known_commit(st);
    match forced {
        Some(t) => {
            if !t.as_str().is_empty() {
                return match user_tag(t.as_str()) {
                    Ok(tag) => {
                        let channel: &'static str = channel_of(tag.as_str());
                        Resolved::Tag(BuildTag { tag, channel, commit, dirty })
                    },
                    Err(m) => Resolved::Refused(m),
                };
            }
        },
        None => {},
    }
    if gate && dirty && !allow_dirty {
        return Resolved::Refused(DIRTY.to_owned());
    }
    let on_branch: bool = match st {
        Some(s) => str_eq(s.branch.as_str(), "main") || str_eq(s.branch.as_str(), "master"),
        None => true,
    };
    if on_branch && !dirty && dev_tag.is_none() {
        return Resolved::Tag(
            BuildTag { tag: version_tag(semver), channel: "release", commit, dirty },
        );
    }
    let slot: String = dev_slot(dev_tag, &commit);
    let built: BuildTag = BuildTag {
        tag: cat2("dev-", slot.as_str()),
        channel: "dev",
        commit,
        dirty,
    };
    match st {
        Some(s) => {
            if gate && !on_branch && !yes {
                let b: String = debug_str(s.branch.as_str());
                return Resolved::Ask(
                    cat3(
                        "warning: not on a release branch (on ",
                        b.as_str(),
                        "); this builds a DEV version, not a clean semver release.\nProceed? [y/N] ",
                    ),
                    built,
                );
            }
        },
        None => {},
    }
    Resolved::Tag(built)
}

/// The build that a resolution allows; after a question, once it was answered.
pub open spec fn build_in(r: ResolvedView) -> Option<BuildTagView> {
    match r {
        ResolvedView::Tag(t) => Some(t),
        ResolvedView::Ask(_, t) => Some(t),
        ResolvedView::Refused(_) => None,
    }
}

// ---- laws ------------------------------------------------------------------------------
/// Unless its tag is forced, a build is a release exactly where the tree is clean
/// and on a release branch (or no working tree at all) and no development build was
/// asked for; a release bears the tag of its version.
pub proof fn law_only_a_clean_release_branch_releases(
    semver: Seq<char>,
    dev_tag: Option<Option<Seq<char>>>,
    allow_dirty: bool,
    yes: bool,
    gate: bool,
    st: Option<GitStateView>,
    forced: Option<Seq<char>>,
)
    requires
        forced matches Some(t) ==> t.len() == 0,
    ensures
        ({
            let b = build_in(resolved(semver, dev_tag, allow_dirty, yes, gate, st, forced));
            &&& b matches Some(t) ==> (t.channel == "release"@ <==> is_release(dev_tag, st))
            &&& b matches Some(t) ==> (is_release(dev_tag, st) ==> t.tag == tag_of(semver))
            &&& is_release(dev_tag, st) ==> b is Some
        }),
{
    reveal_strlit("release");
    reveal_strlit("dev");
    assert("release"@.len() == 7);
    assert("dev"@.len() == 3);
}

/// Unless its tag is forced, a build of a tree with changes is refused where the
/// gates are on and changes are not allowed, and in no other case.
pub proof fn law_changes_are_refused(
    semver: Seq<char>,
    dev_tag: Option<Option<Seq<char>>>,
    allow_dirty: bool,
    yes: bool,
    gate: bool,
    st: Option<GitStateView>,
    forced: Option<Seq<char>>,
)
    requires
        forced matches Some(t) ==> t.len() == 0,
    ensures
        build_in(resolved(semver, dev_tag, allow_dirty, yes, gate, st, forced)) is None <==> gate
            && dirty_in(st) && !allow_dirty,
{
}

proof fn lemma_dev_tag(slot: Seq<char>)
    requires
        is_tag(slot),
        slot.len() > 0,
    ensures
        is_tag("dev-"@ + slot),
        channel("dev-"@ + slot) == "dev"@,
{
    reveal_strlit("dev-");
    let t = "dev-"@ + slot;
    assert(t.take(4) =~= "dev-"@);
    assert(t.subrange(0, 4) =~= "dev-"@);
    assert(t[0] == 'd' && t[1] == 'e' && t[2] == 'v' && t[3] == '-');
    assert(t.last() == slot.last());
    assert forall|i: int| 0 <= i < t.len() implies tag_char(#[trigger] t[i]) || t[i] == '-' by {
        if i >= 4 {
            assert(t[i] == slot[i - 4]);
        }
    }
    assert forall|i: int| 0 < i < t.len() implies !(#[trigger] t[i] == '-' && t[i - 1] == '-') by {
        if i > 4 {
            assert(t[i] == slot[i - 4]);
            assert(t[i - 1] == slot[i - 5]);
        } else if i == 4 {
            assert(t[4] == slot[0]);
        }
    }
}

/// The slot of a development build is in tag form and never empty.
pub proof fn law_slot(dev_tag: Option<Option<Seq<char>>>, commit: Option<Seq<char>>)
    ensures
        is_tag(slot_of(dev_tag, commit)),
        slot_of(dev_tag, commit).len() > 0,
{
    reveal_strlit("local");
    let raw = match dev_tag {
        Some(Some(v)) => v,
        _ => or_empty(commit),
    };
    law_version_tag_is_safe(raw);
    law_version_tag_is_safe(or_empty(commit));
    let l = "local"@;
    assert(l[0] == 'l' && l[1] == 'o' && l[2] == 'c' && l[3] == 'a' && l[4] == 'l');
}

/// The channel can be told from the tag of every development build; from the tag
/// of a release, where its version does not itself begin as a development tag does.
pub proof fn law_channel_is_in_the_tag(
    semver: Seq<char>,
    dev_tag: Option<Option<Seq<char>>>,
    allow_dirty: bool,
    yes: bool,
    gate: bool,
    st: Option<GitStateView>,
    forced: Option<Seq<char>>,
)
    ensures
        build_in(resolved(semver, dev_tag, allow_dirty, yes, gate, st, forced)) matches Some(t)
            ==> (t.channel == "dev"@ || !has_prefix(tag_of(semver), "dev-"@) ==> channel(t.tag)
            == t.channel),
{
    law_slot(dev_tag, commit_in(st));
    lemma_dev_tag(slot_of(dev_tag, commit_in(st)));
    reveal_strlit("release");
    reveal_strlit("dev");
    assert("release"@.len() == 7);
    assert("dev"@.len() == 3);
}

/// The tag that a build was given is the tag that its binary reads back, so the
/// key that is uploaded to and the key in the templates are one.
pub proof fn law_sealed_as_resolved(
    semver: Seq<char>,
    dev_tag: Option<Option<Seq<char>>>,
    allow_dirty: bool,
    yes: bool,
    gate: bool,
    st: Option<GitStateView>,
    forced: Option<Seq<char>>,
)
    ensures
        build_in(resolved(semver, dev_tag, allow_dirty, yes, gate, st, forced)) matches Some(t)
            ==> sealed_tag(Some(t.tag), semver) == t.tag,
{
    law_slot(dev_tag, commit_in(st));
    lemma_dev_tag(slot_of(dev_tag, commit_in(st)));
    law_version_tag_is_safe(semver);
    if forced is Some {
        law_version_tag_is_safe(forced->0);
    }
    match build_in(resolved(semver, dev_tag, allow_dirty, yes, gate, st, forced)) {
        Some(t) => {
            if t.tag.len() > 0 {
                law_seal_tag_fixes_tags(t.tag, semver);
            }
        },
        None => {},
    }
}

/// Whatever a build is called, its name is a tag: it is in tag form, and there is
/// something of it wherever there is something of the version.
pub proof fn law_builds_have_tags(
    semver: Seq<char>,
    dev_tag: Option<Option<Seq<char>>>,
    allow_dirty: bool,
    yes: bool,
    gate: bool,
    st: Option<GitStateView>,
    forced: Option<Seq<char>>,
)
    ensures
        build_in(resolved(semver, dev_tag, allow_dirty, yes, gate, st, forced)) matches Some(t)
            ==> is_tag(t.tag) && (t.tag.len() == 0 ==> tag_of(semver).len() == 0 && is_release(
            dev_tag,
            st,
        )),
        forced matches Some(t) ==> (t.len() > 0 && tag_of(t).len() == 0 ==> resolved(
            semver,
            dev_tag,
            allow_dirty,
            yes,
            gate,
            st,
            forced,
        ) == ResolvedView::Refused(bad_tag(t))),
{
    law_slot(dev_tag, commit_in(st));
    lemma_dev_tag(slot_of(dev_tag, commit_in(st)));
    law_version_tag_is_safe(semver);
    if forced is Some {
        law_version_tag_is_safe(forced->0);
    }
}

} // verus!
