//! The layout of a binary's tarball. A single entry at the top of an archive takes
//! the place of the directory it is unpacked to, so everything is packed below one
//! directory.

use crate::sorted::{arranged, in_order_by, law_arranged, lemma_place_at, place};
use crate::text::{cat2, halves, lemma_lead, less, not_char, text_less};
use vstd::prelude::*;

verus! {

/// The one entry at the top of every archive.
pub const WRAP_DIR: &'static str = "bin";

/// The permissions of [`WRAP_DIR`], so that what is unpacked can be walked into.
pub const WRAP_MODE: u32 = 0o755;

/// A member of an archive.
pub enum Member {
    /// A directory, by its name in the archive, with its permissions.
    Directory { name: String, mode: u32 },
    /// A file, and its name in the archive. Its permissions are those it has on disk.
    File { source: String, name: String },
}

#[verifier::ext_equal]
pub enum MemberView {
    Directory { name: Seq<char>, mode: u32 },
    File { source: Seq<char>, name: Seq<char> },
}

impl DeepView for Member {
    type V = MemberView;

    open spec fn deep_view(&self) -> MemberView {
        match *self {
            Member::Directory { name, mode } => MemberView::Directory { name: name@, mode },
            Member::File { source, name } => MemberView::File { source: source@, name: name@ },
        }
    }
}

impl MemberView {
    /// The member's name in the archive.
    pub open spec fn name(self) -> Seq<char> {
        match self {
            MemberView::Directory { name, .. } => name,
            MemberView::File { name, .. } => name,
        }
    }
}

pub type Entry = (Seq<char>, Seq<char>);

pub open spec fn entry_name() -> spec_fn(Entry) -> Seq<char> {
    |e: Entry| e.1
}

/// The members of the archive, in order: the directory [`WRAP_DIR`], then each file,
/// by its name below that directory.
pub open spec fn packed(entries: Seq<Entry>) -> Seq<MemberView> {
    let a = arranged(entries, entry_name());
    seq![MemberView::Directory { name: "bin/"@, mode: WRAP_MODE }] + Seq::new(
        a.len(),
        |i: int| MemberView::File { source: a[i].0, name: "bin/"@ + a[i].1 },
    )
}

fn insert_entry(acc: &mut Vec<(String, String)>, x: (String, String))
    ensures
        final(acc).deep_view() == place(old(acc).deep_view(), x.deep_view(), entry_name()),
{
    let ghost a = acc.deep_view();
    let ghost xv = x.deep_view();
    let mut n: usize = 0;
    while n < acc.len() && !less(x.1.as_str(), acc[n].1.as_str())
        invariant
            acc.deep_view() == a,
            x.deep_view() == xv,
            n <= acc@.len(),
            forall|i: int| 0 <= i < n ==> !text_less(xv.1, (#[trigger] a[i]).1),
        decreases acc@.len() - n,
    {
        proof {
            assert(a[n as int] == acc@[n as int].deep_view());
        }
        n = n + 1;
    }
    proof {
        if n < acc@.len() {
            assert(a[n as int] == acc@[n as int].deep_view());
        }
        lemma_place_at(a, xv, entry_name(), n as int);
    }
    acc.insert(n, x);
    proof {
        assert(acc.deep_view() =~= a.insert(n as int, xv));
    }
}

/// How `entries`, each a file and its name, are packed: in the order of their
/// names, so that one input gives one archive, and all below [`WRAP_DIR`], which the
/// archive begins with.
pub fn pack(entries: &Vec<(String, String)>) -> (r: Vec<Member>)
    ensures
        r.deep_view() == packed(entries.deep_view()),
{
    let ghost all = entries.deep_view();
    let mut sorted: Vec<(String, String)> = Vec::new();
    let mut i: usize = 0;
    proof {
        assert(all.take(0) =~= Seq::<Entry>::empty());
        assert(sorted.deep_view() =~= Seq::<Entry>::empty());
    }
    while i < entries.len()
        invariant
            all == entries.deep_view(),
            i <= entries@.len(),
            sorted.deep_view() == arranged(all.take(i as int), entry_name()),
        decreases entries@.len() - i,
    {
        proof {
            assert(all.take(i + 1).drop_last() =~= all.take(i as int));
            assert(all.take(i + 1).last() == entries@[i as int].deep_view());
        }
        insert_entry(&mut sorted, (entries[i].0.clone(), entries[i].1.clone()));
        i = i + 1;
    }
    proof {
        assert(all.take(i as int) =~= all);
    }
    let ghost a = sorted.deep_view();
    let mut out: Vec<Member> = Vec::new();
    out.push(Member::Directory { name: "bin/".to_string(), mode: WRAP_MODE });
    let mut k: usize = 0;
    proof {
        assert(out.deep_view() =~= packed(all).take(1));
    }
    while k < sorted.len()
        invariant
            a == sorted.deep_view(),
            a == arranged(all, entry_name()),
            k <= sorted@.len(),
            out.deep_view() == packed(all).take(k + 1),
        decreases sorted@.len() - k,
    {
        let ghost before = out.deep_view();
        let name: String = cat2("bin/", sorted[k].1.as_str());
        let ghost nv = name@;
        out.push(Member::File { source: sorted[k].0.clone(), name });
        proof {
            assert(a[k as int] == sorted@[k as int].deep_view());
            assert(out.deep_view() =~= before.push(
                MemberView::File { source: a[k as int].0, name: nv },
            ));
            assert(packed(all)[k + 1] == MemberView::File { source: a[k as int].0, name: nv });
            assert(packed(all).take(k + 2) =~= packed(all).take(k + 1).push(packed(all)[k + 1]));
        }
        k = k + 1;
    }
    proof {
        assert(packed(all).take(k + 1) =~= packed(all));
    }
    out
}

/// What an archive becomes at its destination.
pub enum Unpacked<'a> {
    /// The only entry at its top, whatever that is.
    Entry(&'a String),
    /// A directory of what is at its top.
    Directory,
}

/// What an archive with these entries at its top becomes at its destination.
pub fn unpack<'a>(top: &'a Vec<String>) -> (r: Unpacked<'a>)
    ensures
        match r {
            Unpacked::Entry(e) => top@.len() == 1 && e@ == top@[0]@,
            Unpacked::Directory => top@.len() != 1,
        },
{
    if top.len() == 1 {
        Unpacked::Entry(&top[0])
    } else {
        Unpacked::Directory
    }
}

/// What stands at the top of an archive for an entry of this name.
pub open spec fn top_of(name: Seq<char>) -> Seq<char> {
    match halves(name, '/') {
        Some((a, _)) => a,
        None => name,
    }
}

/// Whether `top` is all that stands at the top of an archive.
pub open spec fn is_only_top(archive: Seq<MemberView>, top: Seq<char>) -> bool {
    &&& archive.len() > 0
    &&& forall|i: int| 0 <= i < archive.len() ==> top_of((#[trigger] archive[i]).name()) == top
}

// ---- laws -------------------------------------------------------------------------------
proof fn lemma_wrapped(name: Seq<char>)
    ensures
        halves("bin/"@ + name, '/') == Some(("bin"@, name)),
{
    reveal_strlit("bin/");
    reveal_strlit("bin");
    let s = "bin/"@ + name;
    assert(s[0] == 'b' && s[1] == 'i' && s[2] == 'n' && s[3] == '/');
    lemma_lead(s, not_char('/'), 3);
    assert(s.subrange(0, 3) =~= "bin"@);
    assert(s.subrange(4, s.len() as int) =~= name);
}

/// However many targets a tarball is packed for, the directory [`WRAP_DIR`] is all
/// that stands at its top, and the archive begins with it and with the permissions
/// that let it be walked into. Unpacked, it takes the place of the destination, and
/// the file called `name` is then called `name` below the destination.
pub proof fn law_one_directory_at_the_top(entries: Seq<Entry>)
    ensures
        is_only_top(packed(entries), WRAP_DIR@),
        packed(entries)[0] == (MemberView::Directory { name: WRAP_DIR@ + "/"@, mode: 0o755 }),
        forall|i: int|
            0 <= i < entries.len() ==> halves((#[trigger] packed(entries)[i + 1]).name(), '/')
                == Some((WRAP_DIR@, arranged(entries, entry_name())[i].1)),
{
    law_arranged(entries, entry_name());
    let a = arranged(entries, entry_name());
    let p = packed(entries);
    assert(a.len() == entries.len()) by {
        a.to_multiset_ensures();
        entries.to_multiset_ensures();
    }
    assert("bin/"@ =~= "bin"@ + "/"@) by {
        reveal_strlit("bin/");
        reveal_strlit("bin");
        reveal_strlit("/");
    }
    assert forall|i: int| 0 <= i < entries.len() implies halves(
        (#[trigger] p[i + 1]).name(),
        '/',
    ) == Some((WRAP_DIR@, a[i].1)) by {
        lemma_wrapped(a[i].1);
    }
    assert forall|i: int| 0 <= i < p.len() implies top_of((#[trigger] p[i]).name())
        == WRAP_DIR@ by {
        if i == 0 {
            lemma_wrapped(Seq::empty());
            assert("bin/"@ + Seq::<char>::empty() =~= "bin/"@);
        } else {
            assert(p[i].name() == "bin/"@ + a[i - 1].1);
            lemma_wrapped(a[i - 1].1);
        }
    }
}

/// Every file is packed, once for each time that it is given, behind the one
/// directory, and the files are in the order of their names.
pub proof fn law_everything_is_packed(entries: Seq<Entry>)
    ensures
        packed(entries).len() == entries.len() + 1,
        forall|i: int|
            0 <= i < entries.len() ==> (#[trigger] packed(entries)[i + 1] matches MemberView::File {
                source,
                ..
            } && source == arranged(entries, entry_name())[i].0),
        arranged(entries, entry_name()).to_multiset() == entries.to_multiset(),
        in_order_by(arranged(entries, entry_name()), entry_name()),
{
    law_arranged(entries, entry_name());
    arranged(entries, entry_name()).to_multiset_ensures();
    entries.to_multiset_ensures();
}

} // verus!
