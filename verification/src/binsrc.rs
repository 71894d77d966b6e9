//! The program that a command acts on: a binary that was built before, or one that
//! is built from source.

use crate::answers::{either, either_text};
use crate::config::{Defaults, DefaultsView};
use crate::json::{int_dec, json_entries, read_json_entries};
use crate::outside::{json_facts, json_string, json_text, read_json};
use crate::text::{
    all_digits, cat2, cat3, cat4, cat7, dec, dec_value, decimal, ends_with, has_suffix, parse_u64,
    str_eq,
};
use vstd::prelude::*;

verus! {

/// How the program was named on the command line.
pub struct BinSel {
    pub binary: Option<String>,
    pub manifest_path: Option<String>,
    pub package: Option<String>,
    pub bin: Option<String>,
}

#[verifier::ext_equal]
pub struct BinSelView {
    pub binary: Option<Seq<char>>,
    pub manifest_path: Option<Seq<char>>,
    pub package: Option<Seq<char>>,
    pub bin: Option<Seq<char>>,
}

impl DeepView for BinSel {
    type V = BinSelView;

    open spec fn deep_view(&self) -> BinSelView {
        BinSelView {
            binary: self.binary.deep_view(),
            manifest_path: self.manifest_path.deep_view(),
            package: self.package.deep_view(),
            bin: self.bin.deep_view(),
        }
    }
}

/// What a binary says of itself when it is probed.
pub struct ProbeInfo {
    pub package: String,
    pub bin: String,
    pub version_tag: String,
    pub channel: String,
    pub default_template: String,
}

#[verifier::ext_equal]
pub struct ProbeInfoView {
    pub package: Seq<char>,
    pub bin: Seq<char>,
    pub version_tag: Seq<char>,
    pub channel: Seq<char>,
    pub default_template: Seq<char>,
}

impl DeepView for ProbeInfo {
    type V = ProbeInfoView;

    open spec fn deep_view(&self) -> ProbeInfoView {
        ProbeInfoView {
            package: self.package@,
            bin: self.bin@,
            version_tag: self.version_tag@,
            channel: self.channel@,
            default_template: self.default_template@,
        }
    }
}

/// A program and its arguments.
pub struct Launch {
    pub program: String,
    pub args: Vec<String>,
}

#[verifier::ext_equal]
pub struct LaunchView {
    pub program: Seq<char>,
    pub args: Seq<Seq<char>>,
}

impl DeepView for Launch {
    type V = LaunchView;

    open spec fn deep_view(&self) -> LaunchView {
        LaunchView {
            program: self.program@,
            args: self.args.deep_view(),
        }
    }
}

/// The program that a command runs.
pub enum BinarySource {
    /// A path, or a name that is looked up on the search path.
    Exe(String),
    /// Built and run by Cargo.
    Cargo {
        manifest_path: Option<String>,
        package: Option<String>,
        bin: Option<String>,
    },
}

pub enum BinarySourceView {
    Exe(Seq<char>),
    Cargo {
        manifest_path: Option<Seq<char>>,
        package: Option<Seq<char>>,
        bin: Option<Seq<char>>,
    },
}

impl DeepView for BinarySource {
    type V = BinarySourceView;

    open spec fn deep_view(&self) -> BinarySourceView {
        match self {
            BinarySource::Exe(p) => BinarySourceView::Exe(p@),
            BinarySource::Cargo { manifest_path, package, bin } => BinarySourceView::Cargo {
                manifest_path: manifest_path.deep_view(),
                package: package.deep_view(),
                bin: bin.deep_view(),
            },
        }
    }
}

/// The program that was named. Where no binary was, one is built from source, and
/// the configuration says which where the command line does not.
pub open spec fn source_of(sel: BinSelView, d: DefaultsView) -> BinarySourceView {
    match sel.binary {
        Some(b) => BinarySourceView::Exe(b),
        None => BinarySourceView::Cargo {
            manifest_path: sel.manifest_path,
            package: either(sel.package, d.package),
            bin: either(sel.bin, d.bin),
        },
    }
}

impl BinSel {
    /// The program that was named.
    pub fn resolve(&self, d: &Defaults) -> (r: BinarySource)
        ensures
            r.deep_view() == source_of(self.deep_view(), d.deep_view()),
    {
        match &self.binary {
            Some(b) => BinarySource::Exe(b.clone()),
            None => BinarySource::Cargo {
                manifest_path: match &self.manifest_path {
                    Some(m) => Some(m.clone()),
                    None => None,
                },
                package: either_text(&self.package, &d.package),
                bin: either_text(&self.bin, &d.bin),
            },
        }
    }
}

/// A file in a directory.
pub open spec fn in_dir(dir: Seq<char>, file: Seq<char>) -> Seq<char> {
    if dir.len() == 0 || has_suffix(dir, "/"@) {
        dir + file
    } else {
        dir + "/"@ + file
    }
}

/// A file in a directory.
pub fn path_in(dir: &str, file: &str) -> (r: String)
    ensures
        r@ == in_dir(dir@, file@),
{
    if dir.is_empty() || ends_with(dir, "/") {
        cat2(dir, file)
    } else {
        cat3(dir, "/", file)
    }
}

pub open spec fn with_flag(args: Seq<Seq<char>>, flag: Seq<char>, value: Option<Seq<char>>) -> Seq<
    Seq<char>,
> {
    match value {
        Some(v) => args.push(flag).push(v),
        None => args,
    }
}

/// The manifest that a path names: the path itself, or the one in that directory.
pub open spec fn manifest_of(path: Option<Seq<char>>, is_dir: bool) -> Option<Seq<char>> {
    match path {
        Some(m) => Some(
            if is_dir {
                in_dir(m, "Cargo.toml"@)
            } else {
                m
            },
        ),
        None => None,
    }
}

pub open spec fn launch_of(s: BinarySourceView, is_dir: bool) -> LaunchView {
    match s {
        BinarySourceView::Exe(p) => LaunchView { program: p, args: Seq::empty() },
        BinarySourceView::Cargo { manifest_path, package, bin } => LaunchView {
            program: "cargo"@,
            args: with_flag(
                with_flag(
                    with_flag(seq!["run"@], "--manifest-path"@, manifest_of(manifest_path, is_dir)),
                    "--package"@,
                    package,
                ),
                "--bin"@,
                bin,
            ),
        },
    }
}

pub open spec fn label_of(s: BinarySourceView) -> Seq<char> {
    match s {
        BinarySourceView::Exe(p) => p,
        BinarySourceView::Cargo { .. } => "the workflow crate"@,
    }
}

fn push_text(v: &mut Vec<String>, s: &str)
    ensures
        final(v).deep_view() == old(v).deep_view().push(s@),
{
    let ghost before = v.deep_view();
    v.push(s.to_owned());
    proof {
        assert(v.deep_view() =~= before.push(s@));
    }
}

/// Adds `flag` and its value, where there is one.
pub fn push_flag(args: &mut Vec<String>, flag: &str, value: &Option<String>)
    ensures
        final(args).deep_view() == with_flag(old(args).deep_view(), flag@, value.deep_view()),
{
    match value {
        Some(v) => {
            push_text(args, flag);
            push_text(args, v.as_str());
        },
        None => {},
    }
}

// ---- the probe ------------------------------------------------------------------------------
/// How the probe of a program went.
pub enum ProbeRun {
    /// It could not be started.
    Failed(String),
    /// It ended without success, with this code where it had one.
    Exited(Option<i32>),
    /// It ended with success and printed this; nothing where that was no text.
    Replied(Option<String>),
}

pub enum ProbeRunView {
    Failed(Seq<char>),
    Exited(Option<i32>),
    Replied(Option<Seq<char>>),
}

impl DeepView for ProbeRun {
    type V = ProbeRunView;

    open spec fn deep_view(&self) -> ProbeRunView {
        match self {
            ProbeRun::Failed(m) => ProbeRunView::Failed(m@),
            ProbeRun::Exited(c) => ProbeRunView::Exited(*c),
            ProbeRun::Replied(t) => ProbeRunView::Replied(t.deep_view()),
        }
    }
}

pub open spec fn code_text(code: Option<i32>) -> Seq<char> {
    match code {
        Some(c) => "Some("@ + int_dec(c as int) + ")"@,
        None => "None"@,
    }
}

fn render_code(code: Option<i32>) -> (r: String)
    ensures
        r@ == code_text(code),
{
    match code {
        Some(c) => {
            let n: i64 = c as i64;
            if n < 0 {
                let d: String = decimal((-n) as u128);
                let s: String = cat2("-", d.as_str());
                cat3("Some(", s.as_str(), ")")
            } else {
                let d: String = decimal(n as u128);
                cat3("Some(", d.as_str(), ")")
            }
        },
        None => "None".to_owned(),
    }
}

/// The text of the value under a key.
pub open spec fn value_under(entries: Seq<(Seq<char>, Seq<char>)>, key: Seq<char>) -> Option<
    Seq<char>,
>
    decreases entries.len(),
{
    if entries.len() == 0 {
        None
    } else if entries[0].0 == key {
        Some(entries[0].1)
    } else {
        value_under(entries.drop_first(), key)
    }
}

fn find_value<'a>(entries: &'a Vec<(String, String)>, key: &str) -> (r: Option<&'a String>)
    ensures
        r.deep_view() == value_under(entries.deep_view(), key@),
{
    let ghost all = entries.deep_view();
    let mut i: usize = 0;
    proof {
        assert(all.skip(0) =~= all);
    }
    while i < entries.len()
        invariant
            all == entries.deep_view(),
            i <= entries@.len(),
            value_under(all, key@) == value_under(all.skip(i as int), key@),
        decreases entries@.len() - i,
    {
        proof {
            assert(all.skip(i as int)[0] == entries@[i as int].deep_view());
            assert(all.skip(i as int).drop_first() =~= all.skip(i + 1));
        }
        if str_eq(entries[i].0.as_str(), key) {
            return Some(&entries[i].1);
        }
        i = i + 1;
    }
    None
}

/// The protocol number in a reply; none is zero.
pub open spec fn protocol_in(entries: Seq<(Seq<char>, Seq<char>)>) -> nat {
    match value_under(entries, "athena_protocol"@) {
        Some(t) => if all_digits(t) && dec_value(t) <= u64::MAX {
            dec_value(t) % 0x1_0000_0000
        } else {
            0
        },
        None => 0,
    }
}

pub const OLDER_BINARY: &'static str =
    "rebuild the workflow binary against this cargo-athena (its library + the CLI must match), or use a matching CLI";

pub const NEWER_BINARY: &'static str = "upgrade the CLI (`cargo install cargo-athena`)";

/// What is wrong with the entries of a reply.
pub open spec fn entries_problem(
    label: Seq<char>,
    entries: Seq<(Seq<char>, Seq<char>)>,
    kind: Seq<char>,
    protocol: u32,
) -> Option<Seq<char>> {
    let proto = protocol_in(entries);
    if value_under(entries, "kind"@) != Some(json_text(kind)) {
        Some(label + " is not a cargo-athena binary."@)
    } else if proto != protocol {
        Some(
            "version mismatch: "@ + label + " speaks cargo-athena probe protocol "@ + dec(proto)
                + ", this CLI speaks "@ + dec(protocol as nat) + (" ("@ + (if proto > protocol {
                NEWER_BINARY@
            } else {
                OLDER_BINARY@
            }) + ")."@),
        )
    } else {
        None
    }
}

/// What is wrong with the entries of a reply: it must name its `kind`, and speak
/// the same protocol.
pub fn check_entries(
    label: &str,
    entries: &Vec<(String, String)>,
    kind: &str,
    protocol: u32,
) -> (r: Option<String>)
    ensures
        r.deep_view() == entries_problem(label@, entries.deep_view(), kind@, protocol),
{
    let want: String = json_string(kind);
    let same: bool = match find_value(entries, "kind") {
        Some(t) => str_eq(t.as_str(), want.as_str()),
        None => false,
    };
    if !same {
        return Some(cat2(label, " is not a cargo-athena binary."));
    }
    let proto: u64 = match find_value(entries, "athena_protocol") {
        Some(t) => match parse_u64(t.as_str()) {
            Some(n) => n % 0x1_0000_0000,
            None => 0,
        },
        None => 0,
    };
    if proto != protocol as u64 {
        let hint: &str = if proto > protocol as u64 {
            NEWER_BINARY
        } else {
            OLDER_BINARY
        };
        let theirs: String = decimal(proto as u128);
        let ours: String = decimal(protocol as u128);
        let end: String = cat3(" (", hint, ").");
        return Some(
            cat7(
                "version mismatch: ",
                label,
                " speaks cargo-athena probe protocol ",
                theirs.as_str(),
                ", this CLI speaks ",
                ours.as_str(),
                end.as_str(),
            ),
        );
    }
    None
}

pub open spec fn unrecognized(label: Seq<char>) -> Seq<char> {
    label + " does not look like a cargo-athena binary (unrecognized probe response)."@
}

/// What is wrong with a probed program; nothing where it may be used.
pub open spec fn probe_problem(
    label: Seq<char>,
    ran: ProbeRunView,
    kind: Seq<char>,
    protocol: u32,
) -> Option<Seq<char>> {
    match ran {
        ProbeRunView::Failed(e) => Some("failed to run "@ + label + ": "@ + e),
        ProbeRunView::Exited(code) => Some(
            label + " did not respond to a cargo-athena probe (exit "@ + code_text(code)
                + "). Is it a binary built with cargo-athena (its `main` calls `cargo_athena::entrypoint!(Root)`)?"@,
        ),
        ProbeRunView::Replied(None) => Some(unrecognized(label)),
        ProbeRunView::Replied(Some(t)) => if json_facts(t) is Err {
            Some(unrecognized(label))
        } else {
            match json_entries(t) {
                Some(es) => entries_problem(label, es, kind, protocol),
                None => entries_problem(label, Seq::empty(), kind, protocol),
            }
        },
    }
}

impl BinarySource {
    /// The command that runs the program. `is_dir` says whether the manifest path
    /// is a directory.
    pub fn command(&self, is_dir: bool) -> (r: Launch)
        ensures
            r.deep_view() == launch_of(self.deep_view(), is_dir),
    {
        match self {
            BinarySource::Exe(p) => {
                let args: Vec<String> = Vec::new();
                proof {
                    assert(args.deep_view() =~= Seq::<Seq<char>>::empty());
                }
                Launch { program: p.clone(), args }
            },
            BinarySource::Cargo { manifest_path, package, bin } => {
                let mut args: Vec<String> = Vec::new();
                push_text(&mut args, "run");
                proof {
                    assert(args.deep_view() =~= seq!["run"@]);
                }
                let manifest: Option<String> = match manifest_path {
                    Some(m) => if is_dir {
                        Some(path_in(m.as_str(), "Cargo.toml"))
                    } else {
                        Some(m.clone())
                    },
                    None => None,
                };
                push_flag(&mut args, "--manifest-path", &manifest);
                push_flag(&mut args, "--package", package);
                push_flag(&mut args, "--bin", bin);
                Launch { program: "cargo".to_owned(), args }
            },
        }
    }

    /// What the program is called in messages.
    pub fn label(&self) -> (r: String)
        ensures
            r@ == label_of(self.deep_view()),
    {
        match self {
            BinarySource::Exe(p) => p.clone(),
            BinarySource::Cargo { .. } => "the workflow crate".to_owned(),
        }
    }

    /// The package and the binary that are built; nothing for a program that was
    /// built before.
    pub fn cargo_pkg_bin(&self) -> (r: Option<(Option<String>, Option<String>)>)
        ensures
            match (r, self.deep_view()) {
                (None, BinarySourceView::Exe(_)) => true,
                (Some((p, b)), BinarySourceView::Cargo { manifest_path, package, bin }) => {
                    &&& p.deep_view() == package
                    &&& b.deep_view() == bin
                },
                _ => false,
            },
    {
        match self {
            BinarySource::Exe(_) => None,
            BinarySource::Cargo { manifest_path: _, package, bin } => {
                let p: Option<String> = either_text(package, &None);
                let b: Option<String> = either_text(bin, &None);
                Some((p, b))
            },
        }
    }

    /// Whether a probed program may be used: it ran, it is of this `kind`, and it
    /// speaks this protocol.
    pub fn check_probe(&self, ran: &ProbeRun, kind: &str, protocol: u32) -> (r: Result<(), String>)
        ensures
            match (r, probe_problem(label_of(self.deep_view()), ran.deep_view(), kind@, protocol)) {
                (Ok(_), None) => true,
                (Err(a), Some(b)) => a@ == b,
                _ => false,
            },
    {
        let label: String = self.label();
        match ran {
            ProbeRun::Failed(e) => Err(cat4("failed to run ", label.as_str(), ": ", e.as_str())),
            ProbeRun::Exited(code) => {
                let c: String = render_code(*code);
                let head: String = cat3(
                    label.as_str(),
                    " did not respond to a cargo-athena probe (exit ",
                    c.as_str(),
                );
                Err(
                    cat2(
                        head.as_str(),
                        "). Is it a binary built with cargo-athena (its `main` calls `cargo_athena::entrypoint!(Root)`)?",
                    ),
                )
            },
            ProbeRun::Replied(None) => Err(
                cat2(
                    label.as_str(),
                    " does not look like a cargo-athena binary (unrecognized probe response).",
                ),
            ),
            ProbeRun::Replied(Some(t)) => {
                if read_json(t.as_str()).is_err() {
                    return Err(
                        cat2(
                            label.as_str(),
                            " does not look like a cargo-athena binary (unrecognized probe response).",
                        ),
                    );
                }
                let problem: Option<String> = match read_json_entries(t.as_str()) {
                    Some(es) => check_entries(label.as_str(), &es, kind, protocol),
                    None => {
                        let none: Vec<(String, String)> = Vec::new();
                        proof {
                            assert(none.deep_view() =~= Seq::<(Seq<char>, Seq<char>)>::empty());
                        }
                        check_entries(label.as_str(), &none, kind, protocol)
                    },
                };
                match problem {
                    Some(m) => Err(m),
                    None => Ok(()),
                }
            },
        }
    }

    /// Whether a run of the program gave what it was asked for: it succeeded and
    /// printed something.
    pub fn check_output(&self, success: bool, printed: bool, what: &str) -> (r: Result<(), String>)
        ensures
            r is Ok <==> success && printed,
            r matches Err(m) ==> m@ == "could not get "@ + what@ + " from "@ + label_of(
                self.deep_view(),
            ),
    {
        if success && printed {
            Ok(())
        } else {
            let label: String = self.label();
            Err(cat4("could not get ", what, " from ", label.as_str()))
        }
    }

    /// What to say of a program whose reply names the right kind and protocol but
    /// lacks fields.
    pub fn skewed(&self) -> (r: String)
        ensures
            r@ == label_of(self.deep_view())
                + " was built with a different cargo-athena than this CLI (its probe is missing fields the CLI expects). Rebuild the workflow binary against the same cargo-athena — its library dependency and the `cargo athena` CLI must be the same version."@,
    {
        let label: String = self.label();
        cat2(
            label.as_str(),
            " was built with a different cargo-athena than this CLI (its probe is missing fields the CLI expects). Rebuild the workflow binary against the same cargo-athena — its library dependency and the `cargo athena` CLI must be the same version.",
        )
    }
}

/// A program that was built before is run as it is, whatever the configuration
/// says: nothing is built and no package is looked for.
pub proof fn law_a_binary_needs_no_source(sel: BinSelView, d: DefaultsView, is_dir: bool)
    requires
        sel.binary is Some,
    ensures
        launch_of(source_of(sel, d), is_dir) == (LaunchView {
            program: sel.binary->0,
            args: Seq::empty(),
        }),
{
}

} // verus!
