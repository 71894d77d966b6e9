//! `cargo athena doctor`: whether all that publishing and submitting need is there.

use crate::config::{AthenaConfig, AthenaConfigView};
use crate::ls::blanks;
use crate::text::{
    cat2, cat3, cat4, cat5, chars_of, dec, decimal, halves, has_str, is_space, pieces,
    split_on, split_once, trim, trim_by,
};
use vstd::prelude::*;

verus! {

/// `cargo athena doctor`.
pub struct DoctorArgs {
    /// Whether the bucket is asked for.
    pub check_s3: bool,
}

/// How a check ended.
#[derive(Clone, Copy, PartialEq, Eq, Debug, Structural)]
pub enum Outcome {
    Passed,
    Failed,
    Warned,
}

/// One check: its name, what was found, and how to mend it.
pub struct Check {
    pub outcome: Outcome,
    pub name: String,
    pub detail: String,
    pub fix: Option<String>,
}

#[verifier::ext_equal]
pub struct CheckView {
    pub outcome: Outcome,
    pub name: Seq<char>,
    pub detail: Seq<char>,
    pub fix: Option<Seq<char>>,
}

impl DeepView for Check {
    type V = CheckView;

    open spec fn deep_view(&self) -> CheckView {
        CheckView {
            outcome: self.outcome,
            name: self.name@,
            detail: self.detail@,
            fix: self.fix.deep_view(),
        }
    }
}

// ---- what the tools printed -----------------------------------------------------------
/// The first line of what a tool printed.
pub open spec fn first_line_of(s: Seq<char>) -> Seq<char> {
    let t = trim_by(s, is_space());
    match halves(t, '\n') {
        Some((a, _)) => trim_by(a, is_space()),
        None => trim_by(t, is_space()),
    }
}

/// The first line of what a tool printed.
pub fn first_line(s: &str) -> (r: String)
    ensures
        r@ == first_line_of(s@),
{
    let t: String = trim(s);
    match split_once(t.as_str(), '\n') {
        Some((a, _)) => trim(a.as_str()),
        None => trim(t.as_str()),
    }
}

/// The lines of `lines` that are not blank, without the blanks around them.
pub open spec fn filled(lines: Seq<Seq<char>>) -> Seq<Seq<char>>
    decreases lines.len(),
{
    if lines.len() == 0 {
        Seq::empty()
    } else {
        let t = trim_by(lines.last(), is_space());
        if t.len() == 0 {
            filled(lines.drop_last())
        } else {
            filled(lines.drop_last()).push(t)
        }
    }
}

/// The targets in a list of them, one in each line.
pub fn target_list(s: &str) -> (r: Vec<String>)
    ensures
        r.deep_view() == filled(pieces(s@, '\n')),
{
    let lines: Vec<String> = split_on(s, '\n');
    let ghost all = lines.deep_view();
    let mut out: Vec<String> = Vec::new();
    let mut i: usize = 0;
    proof {
        assert(all.take(0) =~= Seq::<Seq<char>>::empty());
        assert(out.deep_view() =~= Seq::<Seq<char>>::empty());
    }
    while i < lines.len()
        invariant
            all == lines.deep_view(),
            i <= lines@.len(),
            out.deep_view() == filled(all.take(i as int)),
        decreases lines@.len() - i,
    {
        proof {
            assert(all.take(i + 1).drop_last() =~= all.take(i as int));
            assert(all.take(i + 1).last() == lines@[i as int]@);
        }
        let t: String = trim(lines[i].as_str());
        if !t.as_str().is_empty() {
            let ghost before = out.deep_view();
            let ghost tv = t@;
            out.push(t);
            proof {
                assert(out.deep_view() =~= before.push(tv));
            }
        }
        i = i + 1;
    }
    proof {
        assert(all.take(i as int) =~= all);
    }
    out
}

// ---- the checks ---------------------------------------------------------------------------
/// What was found. `config` is the configuration with its path; the tools are there with their versions; `s3` is what the bucket answered, where it was asked.
pub struct Findings {
    pub config: Option<Found>,
    pub zigbuild: Option<String>,
    pub zig: Option<String>,
    pub targets: Option<Vec<String>>,
    pub credentials: bool,
    pub s3: Option<Reached>,
}

#[verifier::ext_equal]
pub struct FindingsView {
    pub config: Option<FoundView>,
    pub zigbuild: Option<Seq<char>>,
    pub zig: Option<Seq<char>>,
    pub targets: Option<Seq<Seq<char>>>,
    pub credentials: bool,
    pub s3: Option<ReachedView>,
}

impl DeepView for Findings {
    type V = FindingsView;

    open spec fn deep_view(&self) -> FindingsView {
        FindingsView {
            config: self.config.deep_view(),
            zigbuild: self.zigbuild.deep_view(),
            zig: self.zig.deep_view(),
            targets: self.targets.deep_view(),
            credentials: self.credentials,
            s3: self.s3.deep_view(),
        }
    }
}

/// A configuration and where it was found.
pub struct Found {
    pub path: String,
    pub config: AthenaConfig,
}

#[verifier::ext_equal]
pub struct FoundView {
    pub path: Seq<char>,
    pub config: AthenaConfigView,
}

impl DeepView for Found {
    type V = FoundView;

    open spec fn deep_view(&self) -> FoundView {
        FoundView {
            path: self.path@,
            config: self.config.deep_view(),
        }
    }
}

/// What the bucket answered.
pub enum Reached {
    Yes,
    No(String),
}

pub enum ReachedView {
    Yes,
    No(Seq<char>),
}

impl DeepView for Reached {
    type V = ReachedView;

    open spec fn deep_view(&self) -> ReachedView {
        match self {
            Reached::Yes => ReachedView::Yes,
            Reached::No(e) => ReachedView::No(e@),
        }
    }
}

pub open spec fn passed(name: Seq<char>, detail: Seq<char>) -> CheckView {
    CheckView { outcome: Outcome::Passed, name, detail, fix: None }
}

pub open spec fn failed(name: Seq<char>, detail: Seq<char>, fix: Seq<char>) -> CheckView {
    CheckView { outcome: Outcome::Failed, name, detail, fix: Some(fix) }
}

pub open spec fn warned(name: Seq<char>, detail: Seq<char>) -> CheckView {
    CheckView { outcome: Outcome::Warned, name, detail, fix: None }
}

pub open spec fn config_check(f: FindingsView) -> CheckView {
    match f.config {
        Some(c) => passed("athena.toml"@, "loaded "@ + c.path),
        None => failed(
            "athena.toml"@,
            "not found"@,
            "create one with `cargo athena init`, or copy from docs/configuration"@,
        ),
    }
}

pub open spec fn zigbuild_check(f: FindingsView) -> CheckView {
    match f.zigbuild {
        Some(v) => passed("cargo-zigbuild"@, v),
        None => failed("cargo-zigbuild"@, "not found"@, "cargo install cargo-zigbuild"@),
    }
}

pub open spec fn zig_check(f: FindingsView) -> CheckView {
    match f.zig {
        Some(v) => passed("zig"@, "zig "@ + v),
        None => failed(
            "zig"@,
            "not found"@,
            "pip install ziglang  (or: brew install zig, or ziglang.org/download)"@,
        ),
    }
}

pub open spec fn target_check(t: Seq<char>, installed: Seq<Seq<char>>) -> CheckView {
    if installed.contains(t) {
        passed("rustup target"@, t)
    } else {
        failed("rustup target"@, t + " not installed"@, "rustup target add "@ + t)
    }
}

/// One check for each target of the configuration; without a configuration none.
pub open spec fn target_checks(f: FindingsView) -> Seq<CheckView> {
    match f.config {
        Some(c) => match f.targets {
            Some(installed) => if c.config.bootstrap.targets.len() == 0 {
                seq![warned("rustup target"@, "athena.toml [bootstrap].targets is empty"@)]
            } else {
                Seq::new(
                    c.config.bootstrap.targets.len(),
                    |i: int| target_check(c.config.bootstrap.targets[i], installed),
                )
            },
            None => seq![
                warned("rustup"@, "couldn't run `rustup target list` (rustup not installed?)"@),
            ],
        },
        None => Seq::empty(),
    }
}

pub open spec fn credentials_check(f: FindingsView) -> CheckView {
    if f.credentials {
        passed("AWS credentials"@, "AWS_ACCESS_KEY_ID set"@)
    } else {
        warned(
            "AWS credentials"@,
            "AWS_ACCESS_KEY_ID / AWS_SECRET_ACCESS_KEY not set (will rely on ambient identity: IMDS / ECS / IRSA)"@,
        )
    }
}

/// The check of the bucket; it is made only where it was asked for.
pub open spec fn s3_checks(check_s3: bool, f: FindingsView) -> Seq<CheckView> {
    if !check_s3 {
        Seq::empty()
    } else {
        match f.config {
            Some(c) => match f.s3 {
                Some(ReachedView::No(e)) => seq![
                    failed(
                        "S3 reachable"@,
                        e,
                        "verify athena.toml endpoint + AWS_* env (or AWS_ENDPOINT_URL for port-forward)"@,
                    ),
                ],
                Some(ReachedView::Yes) => seq![
                    passed(
                        "S3 reachable"@,
                        c.config.artifact_repository.s3.bucket + " ("@
                            + c.config.artifact_repository.s3.endpoint + ")"@,
                    ),
                ],
                None => Seq::empty(),
            },
            None => seq![warned("S3 reachable"@, "skipped (no athena.toml)"@)],
        }
    }
}

/// All the checks, in order.
pub open spec fn checks_of(check_s3: bool, f: FindingsView) -> Seq<CheckView> {
    seq![config_check(f), zigbuild_check(f), zig_check(f)] + target_checks(f) + seq![
        credentials_check(f),
    ] + s3_checks(check_s3, f)
}

fn pass(name: &str, detail: &str) -> (r: Check)
    ensures
        r.deep_view() == passed(name@, detail@),
{
    Check {
        outcome: Outcome::Passed,
        name: name.to_owned(),
        detail: detail.to_owned(),
        fix: None,
    }
}

fn fail(name: &str, detail: &str, fix: &str) -> (r: Check)
    ensures
        r.deep_view() == failed(name@, detail@, fix@),
{
    Check {
        outcome: Outcome::Failed,
        name: name.to_owned(),
        detail: detail.to_owned(),
        fix: Some(fix.to_owned()),
    }
}

fn warn(name: &str, detail: &str) -> (r: Check)
    ensures
        r.deep_view() == warned(name@, detail@),
{
    Check {
        outcome: Outcome::Warned,
        name: name.to_owned(),
        detail: detail.to_owned(),
        fix: None,
    }
}

fn push_check(v: &mut Vec<Check>, c: Check)
    ensures
        final(v).deep_view() == old(v).deep_view().push(c.deep_view()),
{
    let ghost before = v.deep_view();
    let ghost cv = c.deep_view();
    v.push(c);
    proof {
        assert(v.deep_view() =~= before.push(cv));
    }
}

fn add_targets(v: &mut Vec<Check>, f: &Findings)
    ensures
        final(v).deep_view() == old(v).deep_view() + target_checks(f.deep_view()),
{
    let ghost before = v.deep_view();
    match &f.config {
        Some(c) => match &f.targets {
            Some(installed) => {
                let ts: &Vec<String> = &c.config.bootstrap.targets;
                proof {
                    assert(ts.deep_view().len() == ts@.len());
                }
                if ts.len() == 0 {
                    push_check(
                        v,
                        warn("rustup target", "athena.toml [bootstrap].targets is empty"),
                    );
                } else {
                    let ghost want = target_checks(f.deep_view());
                    let mut i: usize = 0;
                    proof {
                        assert(before + want.take(0) =~= before);
                    }
                    while i < ts.len()
                        invariant
                            want.len() == ts@.len(),
                            forall|j: int|
                                0 <= j < ts@.len() ==> #[trigger] want[j] == target_check(
                                    ts@[j]@,
                                    installed.deep_view(),
                                ),
                            i <= ts@.len(),
                            v.deep_view() == before + want.take(i as int),
                        decreases ts@.len() - i,
                    {
                        let t: &str = ts[i].as_str();
                        let c: Check = if has_str(installed, t) {
                            pass("rustup target", t)
                        } else {
                            let detail: String = cat2(t, " not installed");
                            let fix: String = cat2("rustup target add ", t);
                            fail("rustup target", detail.as_str(), fix.as_str())
                        };
                        proof {
                            assert(c.deep_view() == want[i as int]);
                            assert((before + want.take(i as int)).push(want[i as int]) =~= before
                                + want.take(i + 1));
                        }
                        push_check(v, c);
                        i = i + 1;
                    }
                    proof {
                        assert(want.take(i as int) =~= want);
                    }
                }
            },
            None => {
                push_check(
                    v,
                    warn("rustup", "couldn't run `rustup target list` (rustup not installed?)"),
                );
            },
        },
        None => {},
    }
    proof {
        assert(v.deep_view() =~= before + target_checks(f.deep_view()));
    }
}

fn add_s3(v: &mut Vec<Check>, check_s3: bool, f: &Findings)
    ensures
        final(v).deep_view() == old(v).deep_view() + s3_checks(check_s3, f.deep_view()),
{
    let ghost before = v.deep_view();
    if check_s3 {
        match &f.config {
            Some(c) => match &f.s3 {
                Some(Reached::No(e)) => {
                    push_check(
                        v,
                        fail(
                            "S3 reachable",
                            e.as_str(),
                            "verify athena.toml endpoint + AWS_* env (or AWS_ENDPOINT_URL for port-forward)",
                        ),
                    );
                },
                Some(Reached::Yes) => {
                    let detail: String = cat4(
                        c.config.artifact_repository.s3.bucket.as_str(),
                        " (",
                        c.config.artifact_repository.s3.endpoint.as_str(),
                        ")",
                    );
                    push_check(v, pass("S3 reachable", detail.as_str()));
                },
                None => {},
            },
            None => {
                push_check(v, warn("S3 reachable", "skipped (no athena.toml)"));
            },
        }
    }
    proof {
        assert(v.deep_view() =~= before + s3_checks(check_s3, f.deep_view()));
    }
}

/// All the checks, in order.
pub fn doctor(args: &DoctorArgs, f: &Findings) -> (r: Vec<Check>)
    ensures
        r.deep_view() == checks_of(args.check_s3, f.deep_view()),
{
    let ghost fv = f.deep_view();
    let mut out: Vec<Check> = Vec::new();
    proof {
        assert(out.deep_view() =~= Seq::<CheckView>::empty());
    }
    let c: Check = match &f.config {
        Some(c) => {
            let detail: String = cat2("loaded ", c.path.as_str());
            pass("athena.toml", detail.as_str())
        },
        None => fail(
            "athena.toml",
            "not found",
            "create one with `cargo athena init`, or copy from docs/configuration",
        ),
    };
    push_check(&mut out, c);
    let c: Check = match &f.zigbuild {
        Some(v) => pass("cargo-zigbuild", v.as_str()),
        None => fail("cargo-zigbuild", "not found", "cargo install cargo-zigbuild"),
    };
    push_check(&mut out, c);
    let c: Check = match &f.zig {
        Some(v) => {
            let detail: String = cat2("zig ", v.as_str());
            pass("zig", detail.as_str())
        },
        None => fail(
            "zig",
            "not found",
            "pip install ziglang  (or: brew install zig, or ziglang.org/download)",
        ),
    };
    push_check(&mut out, c);
    proof {
        assert(out.deep_view() =~= seq![config_check(fv), zigbuild_check(fv), zig_check(fv)]);
    }
    add_targets(&mut out, f);
    let ghost so_far = out.deep_view();
    let c: Check = if f.credentials {
        pass("AWS credentials", "AWS_ACCESS_KEY_ID set")
    } else {
        warn(
            "AWS credentials",
            "AWS_ACCESS_KEY_ID / AWS_SECRET_ACCESS_KEY not set (will rely on ambient identity: IMDS / ECS / IRSA)",
        )
    };
    push_check(&mut out, c);
    proof {
        assert(out.deep_view() =~= so_far + seq![credentials_check(fv)]);
    }
    add_s3(&mut out, args.check_s3, f);
    out
}

// ---- the report ---------------------------------------------------------------------------
/// A name with dots behind it up to the column of the marks.
pub open spec fn dotted(name: Seq<char>) -> Seq<char> {
    if name.len() < 36 {
        name + Seq::new((36 - name.len()) as nat, |i: int| '.')
    } else {
        name
    }
}

fn add_dots(name: &str) -> (r: String)
    ensures
        r@ == dotted(name@),
{
    let v: Vec<char> = chars_of(name);
    let n: usize = v.len();
    let mut out: String = name.to_owned();
    if n >= 36 {
        return out;
    }
    let ghost dots = Seq::new((36 - name@.len()) as nat, |i: int| '.');
    let mut i: usize = n;
    proof {
        assert(name@ + dots.take(0) =~= name@);
    }
    while i < 36
        invariant
            n == name@.len(),
            n <= i <= 36,
            dots == Seq::new((36 - name@.len()) as nat, |i: int| '.'),
            out@ == name@ + dots.take(i - n),
        decreases 36 - i,
    {
        out.push('.');
        proof {
            assert(out@ =~= name@ + dots.take(i + 1 - n));
        }
        i = i + 1;
    }
    proof {
        assert(dots.take(36 - n) =~= dots);
    }
    out
}

pub open spec fn mark_of(o: Outcome) -> Seq<char> {
    match o {
        Outcome::Passed => " ✓ "@,
        Outcome::Failed => " ✗ "@,
        Outcome::Warned => " ? "@,
    }
}

/// The lines of one check.
pub open spec fn check_text(c: CheckView) -> Seq<char> {
    let line = "  "@ + dotted(c.name) + mark_of(c.outcome) + c.detail;
    match c.fix {
        Some(fix) => line + "\n  "@ + blanks(36) + "      fix: "@ + fix,
        None => line,
    }
}

/// The lines of one check.
pub fn render_check(c: &Check) -> (r: String)
    ensures
        r@ == check_text(c.deep_view()),
{
    let name: String = add_dots(c.name.as_str());
    let mark: &str = match c.outcome {
        Outcome::Passed => " ✓ ",
        Outcome::Failed => " ✗ ",
        Outcome::Warned => " ? ",
    };
    let line: String = cat4("  ", name.as_str(), mark, c.detail.as_str());
    match &c.fix {
        Some(fix) => {
            let gap: String = crate::ls::pad("", 36);
            proof {
                reveal_strlit("");
                assert(""@ + blanks(36) =~= blanks(36));
            }
            cat5(line.as_str(), "\n  ", gap.as_str(), "      fix: ", fix.as_str())
        },
        None => line,
    }
}

/// How many checks ended so.
pub open spec fn count(cs: Seq<CheckView>, o: Outcome) -> nat
    decreases cs.len(),
{
    if cs.len() == 0 {
        0
    } else {
        count(cs.drop_last(), o) + (if cs.last().outcome == o {
            1nat
        } else {
            0nat
        })
    }
}

/// How many checks ended so.
pub fn tally(cs: &Vec<Check>, o: Outcome) -> (r: usize)
    ensures
        r == count(cs.deep_view(), o),
        r <= cs@.len(),
{
    let ghost all = cs.deep_view();
    let mut n: usize = 0;
    let mut i: usize = 0;
    proof {
        assert(all.take(0) =~= Seq::<CheckView>::empty());
    }
    while i < cs.len()
        invariant
            all == cs.deep_view(),
            n <= i <= cs@.len(),
            n == count(all.take(i as int), o),
        decreases cs@.len() - i,
    {
        proof {
            assert(all.take(i + 1).drop_last() =~= all.take(i as int));
            assert(all.take(i + 1).last() == cs@[i as int].deep_view());
        }
        if cs[i].outcome == o {
            n = n + 1;
        }
        i = i + 1;
    }
    proof {
        assert(all.take(i as int) =~= all);
    }
    n
}

/// The last line, and the exit code.
pub open spec fn summary_of(cs: Seq<CheckView>) -> (Seq<char>, int) {
    let p = count(cs, Outcome::Passed);
    let f = count(cs, Outcome::Failed);
    let w = count(cs, Outcome::Warned);
    if f == 0 && w == 0 {
        ("All "@ + dec(cs.len()) + " checks passed."@, 0)
    } else if f == 0 {
        (
            dec(p) + " of "@ + dec(cs.len()) + " passed, "@ + dec(w)
                + " warning(s) - okay, but read above."@,
            0,
        )
    } else {
        (
            dec(p) + " of "@ + dec(cs.len()) + " passed, "@ + dec(f) + (" failed"@ + (if w > 0 {
                ", "@ + dec(w) + " warning(s)"@
            } else {
                Seq::empty()
            }) + " - fix the above to publish."@),
            1,
        )
    }
}

/// The last line, and the exit code: one where a check failed, and otherwise zero.
pub fn summary(cs: &Vec<Check>) -> (r: (String, i32))
    ensures
        (r.0@, r.1 as int) == summary_of(cs.deep_view()),
{
    let p: usize = tally(cs, Outcome::Passed);
    let f: usize = tally(cs, Outcome::Failed);
    let w: usize = tally(cs, Outcome::Warned);
    let total: String = decimal(cs.len() as u128);
    proof {
        assert(cs.deep_view().len() == cs@.len());
    }
    if f == 0 && w == 0 {
        return (cat3("All ", total.as_str(), " checks passed."), 0);
    }
    let pt: String = decimal(p as u128);
    let wt: String = decimal(w as u128);
    if f == 0 {
        let line: String = cat5(pt.as_str(), " of ", total.as_str(), " passed, ", wt.as_str());
        return (cat2(line.as_str(), " warning(s) - okay, but read above."), 0);
    }
    let ft: String = decimal(f as u128);
    let more: String = if w > 0 {
        cat3(", ", wt.as_str(), " warning(s)")
    } else {
        let s: String = String::new();
        proof {
            assert(s@ =~= Seq::<char>::empty());
        }
        s
    };
    let end: String = cat3(" failed", more.as_str(), " - fix the above to publish.");
    let line: String = cat5(pt.as_str(), " of ", total.as_str(), " passed, ", ft.as_str());
    (cat2(line.as_str(), end.as_str()), 1)
}

// ---- laws ---------------------------------------------------------------------------------
/// Every check passed, failed or warned.
pub proof fn law_every_check_counts(cs: Seq<CheckView>)
    ensures
        count(cs, Outcome::Passed) + count(cs, Outcome::Failed) + count(cs, Outcome::Warned)
            == cs.len(),
    decreases cs.len(),
{
    if cs.len() > 0 {
        law_every_check_counts(cs.drop_last());
    }
}

/// The exit code is zero exactly where no check failed.
pub proof fn law_exit_code(cs: Seq<CheckView>)
    ensures
        summary_of(cs).1 == 0 <==> forall|i: int|
            0 <= i < cs.len() ==> (#[trigger] cs[i]).outcome != Outcome::Failed,
        summary_of(cs).1 == 0 || summary_of(cs).1 == 1,
    decreases cs.len(),
{
    lemma_none(cs, Outcome::Failed);
}

proof fn lemma_none(cs: Seq<CheckView>, o: Outcome)
    ensures
        count(cs, o) == 0 <==> forall|i: int|
            0 <= i < cs.len() ==> (#[trigger] cs[i]).outcome != o,
    decreases cs.len(),
{
    if cs.len() > 0 {
        let front = cs.drop_last();
        lemma_none(front, o);
        assert(cs.last() == cs[cs.len() - 1]);
        assert(forall|i: int| 0 <= i < front.len() ==> #[trigger] front[i] == cs[i]);
        if count(cs, o) == 0 {
            assert forall|i: int| 0 <= i < cs.len() implies (#[trigger] cs[i]).outcome != o by {
                if i < front.len() {
                    assert(front[i].outcome != o);
                }
            }
        }
    }
}

/// Every failed check says how to mend it, and no other does.
pub proof fn law_failures_have_fixes(check_s3: bool, f: FindingsView, i: int)
    requires
        0 <= i < checks_of(check_s3, f).len(),
    ensures
        checks_of(check_s3, f)[i].fix is Some <==> checks_of(check_s3, f)[i].outcome
            == Outcome::Failed,
{
}

} // verus!
