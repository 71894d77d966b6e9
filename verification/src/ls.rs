//! `cargo athena ls`: the templates of a binary as a table.

use crate::binsrc::BinSel;
use crate::emulate::{param_texts, render_params};
use crate::run_meta::{ContainerRunMeta, ContainerRunMetaView};
use crate::sorted::{arranged, in_order_by, law_arranged, lemma_place_at, place};
use crate::text::{
    after_prefix, byte_count, cat2, cat3, chars_of, join, joined, less, str_eq, strip_prefix,
    text_less,
};
use vstd::prelude::*;
use vstd::utf8::encode_utf8;

verus! {

/// The templates that are listed.
#[derive(Clone, Copy, PartialEq, Eq, Debug, Structural)]
pub enum KindFilter {
    Container,
    Workflow,
}

/// `cargo athena ls`.
pub struct LsArgs {
    pub bin: BinSel,
    pub kind: Option<KindFilter>,
    pub include_synthetic: bool,
}

/// One template in the table. `full` is its whole name.
pub struct Row {
    pub full: String,
    pub package: String,
    pub name: String,
    pub kind: String,
    pub signature: String,
}

#[verifier::ext_equal]
pub struct RowView {
    pub full: Seq<char>,
    pub package: Seq<char>,
    pub name: Seq<char>,
    pub kind: Seq<char>,
    pub signature: Seq<char>,
}

impl DeepView for Row {
    type V = RowView;

    open spec fn deep_view(&self) -> RowView {
        RowView {
            full: self.full@,
            package: self.package@,
            name: self.name@,
            kind: self.kind@,
            signature: self.signature@,
        }
    }
}

/// How the kind of a template is coloured.
#[derive(Clone, Copy, PartialEq, Eq, Debug, Structural)]
pub enum Accent {
    Cyan,
    Magenta,
    Plain,
}

pub open spec fn accent_of(kind: Seq<char>) -> Accent {
    if kind == "container"@ {
        Accent::Cyan
    } else if kind == "workflow"@ {
        Accent::Magenta
    } else {
        Accent::Plain
    }
}

/// How the kind of a template is coloured.
pub fn kind_accent(kind: &str) -> (r: Accent)
    ensures
        r == accent_of(kind@),
{
    if str_eq(kind, "container") {
        Accent::Cyan
    } else if str_eq(kind, "workflow") {
        Accent::Magenta
    } else {
        Accent::Plain
    }
}

// ---- rows --------------------------------------------------------------------------------
/// Whether a template is listed.
pub open spec fn is_listed(
    m: ContainerRunMetaView,
    kind: Option<KindFilter>,
    include_synthetic: bool,
) -> bool {
    &&& include_synthetic || !m.synthetic
    &&& match kind {
        Some(KindFilter::Container) => m.kind == "container"@,
        Some(KindFilter::Workflow) => m.kind == "workflow"@,
        None => true,
    }
}

/// A template's name without its package in front.
pub open spec fn short_name(m: ContainerRunMetaView) -> Seq<char> {
    match after_prefix(m.name, m.package + "-"@) {
        Some(n) => n,
        None => m.name,
    }
}

pub open spec fn row_of(m: ContainerRunMetaView) -> RowView {
    RowView {
        full: m.name,
        package: m.package,
        name: short_name(m),
        kind: m.kind,
        signature: "("@ + joined(param_texts(m.params), ", "@) + ")"@,
    }
}

pub open spec fn full_key() -> spec_fn(RowView) -> Seq<char> {
    |r: RowView| r.full
}

/// The rows of the templates that are listed, before they are put in order.
pub open spec fn listed_rows(
    all: Seq<ContainerRunMetaView>,
    kind: Option<KindFilter>,
    include_synthetic: bool,
) -> Seq<RowView>
    decreases all.len(),
{
    if all.len() == 0 {
        Seq::empty()
    } else {
        let front = listed_rows(all.drop_last(), kind, include_synthetic);
        if is_listed(all.last(), kind, include_synthetic) {
            front.push(row_of(all.last()))
        } else {
            front
        }
    }
}

/// The rows of the table, in the order of the names.
pub open spec fn table_of(
    all: Seq<ContainerRunMetaView>,
    kind: Option<KindFilter>,
    include_synthetic: bool,
) -> Seq<RowView> {
    arranged(listed_rows(all, kind, include_synthetic), full_key())
}

fn make_row(m: &ContainerRunMeta) -> (r: Row)
    ensures
        r.deep_view() == row_of(m.deep_view()),
{
    let prefix: String = cat2(m.package.as_str(), "-");
    let name: String = match strip_prefix(m.name.as_str(), prefix.as_str()) {
        Some(n) => n,
        None => m.name.clone(),
    };
    let params: Vec<String> = render_params(&m.params);
    let inner: String = join(&params, ", ");
    Row {
        full: m.name.clone(),
        package: m.package.clone(),
        name,
        kind: m.kind.clone(),
        signature: cat3("(", inner.as_str(), ")"),
    }
}

fn wanted(m: &ContainerRunMeta, kind: Option<KindFilter>, include_synthetic: bool) -> (r: bool)
    ensures
        r == is_listed(m.deep_view(), kind, include_synthetic),
{
    (include_synthetic || !m.synthetic) && match kind {
        Some(KindFilter::Container) => str_eq(m.kind.as_str(), "container"),
        Some(KindFilter::Workflow) => str_eq(m.kind.as_str(), "workflow"),
        None => true,
    }
}

fn insert_row(acc: &mut Vec<Row>, x: Row)
    ensures
        final(acc).deep_view() == place(old(acc).deep_view(), x.deep_view(), full_key()),
{
    let ghost a = acc.deep_view();
    let ghost xv = x.deep_view();
    let mut n: usize = 0;
    while n < acc.len() && !less(x.full.as_str(), acc[n].full.as_str())
        invariant
            acc.deep_view() == a,
            x.deep_view() == xv,
            n <= acc@.len(),
            forall|i: int| 0 <= i < n ==> !text_less(xv.full, (#[trigger] a[i]).full),
        decreases acc@.len() - n,
    {
        proof {
            assert(a[n as int] == acc@[n as int].deep_view());
        }
        n = n + 1;
    }
    proof {
        if n < acc@.len() {
            assert(a[n as int] == acc@[n as int].deep_view());
        }
        lemma_place_at(a, xv, full_key(), n as int);
    }
    acc.insert(n, x);
    proof {
        assert(acc.deep_view() =~= a.insert(n as int, xv));
    }
}

/// The rows of the table that `a` asks for, of all the templates of a binary.
pub fn ls(a: &LsArgs, all: &Vec<ContainerRunMeta>) -> (r: Vec<Row>)
    ensures
        r.deep_view() == table_of(all.deep_view(), a.kind, a.include_synthetic),
{
    let ghost ms = all.deep_view();
    let mut out: Vec<Row> = Vec::new();
    let mut i: usize = 0;
    proof {
        assert(ms.take(0) =~= Seq::<ContainerRunMetaView>::empty());
        assert(out.deep_view() =~= Seq::<RowView>::empty());
    }
    while i < all.len()
        invariant
            ms == all.deep_view(),
            i <= all@.len(),
            out.deep_view() == table_of(ms.take(i as int), a.kind, a.include_synthetic),
        decreases all@.len() - i,
    {
        proof {
            assert(ms.take(i + 1).drop_last() =~= ms.take(i as int));
            assert(ms.take(i + 1).last() == all@[i as int].deep_view());
        }
        if wanted(&all[i], a.kind, a.include_synthetic) {
            let row: Row = make_row(&all[i]);
            proof {
                let front = listed_rows(ms.take(i as int), a.kind, a.include_synthetic);
                assert(front.push(row.deep_view()).drop_last() =~= front);
            }
            insert_row(&mut out, row);
        }
        i = i + 1;
    }
    proof {
        assert(ms.take(i as int) =~= ms);
    }
    out
}

// ---- widths ------------------------------------------------------------------------------
/// `n` blanks.
pub open spec fn blanks(n: nat) -> Seq<char> {
    Seq::new(n, |i: int| ' ')
}

/// `s` with blanks behind it up to `width` characters.
pub open spec fn padded(s: Seq<char>, width: int) -> Seq<char> {
    if s.len() < width {
        s + blanks((width - s.len()) as nat)
    } else {
        s
    }
}

/// `s` with blanks behind it up to `width` characters.
pub fn pad(s: &str, width: usize) -> (r: String)
    ensures
        r@ == padded(s@, width as int),
{
    let v: Vec<char> = chars_of(s);
    let mut out: String = s.to_owned();
    let mut i: usize = v.len();
    proof {
        if i < width {
            assert(s@ + blanks(0) =~= s@);
        }
    }
    while i < width
        invariant
            s@.len() <= i,
            i < width ==> out@ == s@ + blanks((i - s@.len()) as nat),
            i == width && s@.len() < width ==> out@ == s@ + blanks((i - s@.len()) as nat),
            s@.len() >= width ==> out@ == s@,
            s@.len() < width ==> i <= width,
        decreases width - i,
    {
        let ghost n: nat = (i - s@.len()) as nat;
        out.push(' ');
        proof {
            assert(blanks(n).push(' ') =~= blanks(n + 1));
            assert((s@ + blanks(n)).push(' ') =~= s@ + blanks(n).push(' '));
        }
        i = i + 1;
    }
    out
}

/// A length that every text of `texts` keeps to, in bytes, and that is not below
/// `least`; the least such.
pub open spec fn widest(texts: Seq<Seq<char>>, least: int) -> int
    decreases texts.len(),
{
    if texts.len() == 0 {
        least
    } else {
        let front = widest(texts.drop_last(), least);
        let n = encode_utf8(texts.last()).len();
        if n > front {
            n as int
        } else {
            front
        }
    }
}

pub open spec fn packages_in(rows: Seq<RowView>) -> Seq<Seq<char>> {
    Seq::new(rows.len(), |i: int| rows[i].package)
}

pub open spec fn names_in(rows: Seq<RowView>) -> Seq<Seq<char>> {
    Seq::new(rows.len(), |i: int| rows[i].name)
}

/// The widths of the columns `PACKAGE` and `NAME`.
pub open spec fn widths_of(rows: Seq<RowView>) -> (int, int) {
    (widest(packages_in(rows), 7), widest(names_in(rows), 4))
}

/// The widths of the columns `PACKAGE` and `NAME`: wide enough for what stands in
/// them, and for their heads.
pub fn widths(rows: &Vec<Row>) -> (r: (usize, usize))
    ensures
        (r.0 as int, r.1 as int) == widths_of(rows.deep_view()),
{
    let ghost rs = rows.deep_view();
    let mut pw: usize = 7;
    let mut nw: usize = 4;
    let mut i: usize = 0;
    while i < rows.len()
        invariant
            rs == rows.deep_view(),
            i <= rows@.len(),
            pw as int == widest(packages_in(rs).take(i as int), 7),
            nw as int == widest(names_in(rs).take(i as int), 4),
        decreases rows@.len() - i,
    {
        proof {
            assert(packages_in(rs).take(i + 1).drop_last() =~= packages_in(rs).take(i as int));
            assert(names_in(rs).take(i + 1).drop_last() =~= names_in(rs).take(i as int));
            assert(rs[i as int] == rows@[i as int].deep_view());
        }
        let p: usize = byte_count(rows[i].package.as_str());
        if p > pw {
            pw = p;
        }
        let n: usize = byte_count(rows[i].name.as_str());
        if n > nw {
            nw = n;
        }
        i = i + 1;
    }
    proof {
        assert(packages_in(rs).take(i as int) =~= packages_in(rs));
        assert(names_in(rs).take(i as int) =~= names_in(rs));
    }
    (pw, nw)
}

/// The head of the table.
pub fn head_cells(pw: usize, nw: usize) -> (r: (String, String, String, String))
    ensures
        r.0@ == padded("PACKAGE"@, pw as int),
        r.1@ == padded("NAME"@, nw as int),
        r.2@ == "KIND     "@,
        r.3@ == "SIGNATURE"@,
{
    (pad("PACKAGE", pw), pad("NAME", nw), "KIND     ".to_owned(), "SIGNATURE".to_owned())
}

/// The cells of one row of the table.
pub fn row_cells(row: &Row, pw: usize, nw: usize) -> (r: (String, String, String, String))
    ensures
        r.0@ == padded(row.deep_view().package, pw as int),
        r.1@ == padded(row.deep_view().name, nw as int),
        r.2@ == padded(row.deep_view().kind, 9),
        r.3@ == row.deep_view().signature,
{
    (
        pad(row.package.as_str(), pw),
        pad(row.name.as_str(), nw),
        pad(row.kind.as_str(), 9),
        row.signature.clone(),
    )
}

// ---- laws --------------------------------------------------------------------------------
/// The table is in the order of the names, and holds exactly the rows of the
/// templates that are listed.
pub proof fn law_table(
    all: Seq<ContainerRunMetaView>,
    kind: Option<KindFilter>,
    include_synthetic: bool,
)
    ensures
        in_order_by(table_of(all, kind, include_synthetic), full_key()),
        table_of(all, kind, include_synthetic).to_multiset() == listed_rows(
            all,
            kind,
            include_synthetic,
        ).to_multiset(),
{
    law_arranged(listed_rows(all, kind, include_synthetic), full_key());
}

/// A template is in the table exactly where it is listed.
pub proof fn law_every_listed_template_has_a_row(
    all: Seq<ContainerRunMetaView>,
    kind: Option<KindFilter>,
    include_synthetic: bool,
    row: RowView,
)
    ensures
        table_of(all, kind, include_synthetic).contains(row) <==> exists|i: int|
            0 <= i < all.len() && is_listed(#[trigger] all[i], kind, include_synthetic) && row
                == row_of(all[i]),
{
    let rows = listed_rows(all, kind, include_synthetic);
    law_table(all, kind, include_synthetic);
    vstd::seq_lib::to_multiset_contains(table_of(all, kind, include_synthetic), row);
    vstd::seq_lib::to_multiset_contains(rows, row);
    lemma_rows(all, kind, include_synthetic, row);
}

proof fn lemma_rows(
    all: Seq<ContainerRunMetaView>,
    kind: Option<KindFilter>,
    include_synthetic: bool,
    row: RowView,
)
    ensures
        listed_rows(all, kind, include_synthetic).contains(row) <==> exists|i: int|
            0 <= i < all.len() && is_listed(#[trigger] all[i], kind, include_synthetic) && row
                == row_of(all[i]),
    decreases all.len(),
{
    let rows = listed_rows(all, kind, include_synthetic);
    if all.len() > 0 {
        let front = all.drop_last();
        let before = listed_rows(front, kind, include_synthetic);
        lemma_rows(front, kind, include_synthetic, row);
        let last = all.len() - 1;
        assert(all[last] == all.last());
        if rows.contains(row) {
            let k = choose|k: int| 0 <= k < rows.len() && rows[k] == row;
            if k < before.len() {
                assert(before[k] == row);
                let i = choose|i: int|
                    0 <= i < front.len() && is_listed(#[trigger] front[i], kind, include_synthetic)
                        && row == row_of(front[i]);
                assert(all[i] == front[i]);
            } else {
                assert(is_listed(all[last], kind, include_synthetic));
            }
        }
        if exists|i: int|
            0 <= i < all.len() && is_listed(#[trigger] all[i], kind, include_synthetic) && row
                == row_of(all[i]) {
            let i = choose|i: int|
                0 <= i < all.len() && is_listed(#[trigger] all[i], kind, include_synthetic) && row
                    == row_of(all[i]);
            if i < last {
                assert(front[i] == all[i]);
                assert(before.contains(row));
                let k = choose|k: int| 0 <= k < before.len() && before[k] == row;
                assert(rows[k] == row);
            } else {
                assert(rows[rows.len() - 1] == row);
            }
        }
    }
}

/// Nothing that stands in the columns `PACKAGE` and `NAME` is wider than they are.
pub proof fn law_widths(rows: Seq<RowView>, i: int)
    requires
        0 <= i < rows.len(),
    ensures
        encode_utf8(rows[i].package).len() <= widths_of(rows).0,
        encode_utf8(rows[i].name).len() <= widths_of(rows).1,
{
    lemma_widest(packages_in(rows), 7, i);
    lemma_widest(names_in(rows), 4, i);
}

proof fn lemma_widest(texts: Seq<Seq<char>>, least: int, i: int)
    requires
        0 <= i < texts.len(),
    ensures
        encode_utf8(texts[i]).len() <= widest(texts, least),
    decreases texts.len(),
{
    if i < texts.len() - 1 {
        lemma_widest(texts.drop_last(), least, i);
    }
}

} // verus!
