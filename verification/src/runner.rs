//! The small driver: it runs a workflow crate through Cargo and passes on what the
//! crate prints.

use crate::binsrc::{push_flag, with_flag};
use crate::text::str_eq;
use vstd::prelude::*;

verus! {

/// The text behind the first `name`.
pub open spec fn text_behind(args: Seq<Seq<char>>, name: Seq<char>) -> Option<Seq<char>>
    decreases args.len(),
{
    if args.len() == 0 {
        None
    } else if args[0] == name {
        if args.len() > 1 {
            Some(args[1])
        } else {
            None
        }
    } else {
        text_behind(args.drop_first(), name)
    }
}

/// The text behind the first `name`.
pub fn opt(args: &Vec<String>, name: &str) -> (r: Option<String>)
    ensures
        r.deep_view() == text_behind(args.deep_view(), name@),
{
    let ghost all = args.deep_view();
    let mut i: usize = 0;
    proof {
        assert(all.skip(0) =~= all);
    }
    while i < args.len()
        invariant
            all == args.deep_view(),
            i <= args@.len(),
            text_behind(all, name@) == text_behind(all.skip(i as int), name@),
        decreases args@.len() - i,
    {
        proof {
            let rest = all.skip(i as int);
            assert(rest[0] == args@[i as int]@);
            assert(rest.drop_first() =~= all.skip(i + 1));
            if rest.len() > 1 {
                assert(rest[1] == args@[i + 1]@);
            }
        }
        if str_eq(args[i].as_str(), name) {
            return if i + 1 < args.len() {
                Some(args[i + 1].clone())
            } else {
                None
            };
        }
        i = i + 1;
    }
    None
}

pub open spec fn cargo_args_of(args: Seq<Seq<char>>) -> Seq<Seq<char>> {
    with_flag(
        with_flag(seq!["run"@, "--quiet"@], "--package"@, text_behind(args, "--package"@)),
        "--bin"@,
        text_behind(args, "--bin"@),
    )
}

/// What Cargo is called with.
pub fn cargo_run(args: &Vec<String>) -> (r: Vec<String>)
    ensures
        r.deep_view() == cargo_args_of(args.deep_view()),
{
    let mut out: Vec<String> = Vec::new();
    out.push("run".to_owned());
    out.push("--quiet".to_owned());
    proof {
        assert(out.deep_view() =~= seq!["run"@, "--quiet"@]);
    }
    push_flag(&mut out, "--package", &opt(args, "--package"));
    push_flag(&mut out, "--bin", &opt(args, "--bin"));
    out
}

/// What the driver is asked for.
pub enum Request {
    /// Print the templates, or write them to a file.
    Build { cargo: Vec<String>, out: Option<String> },
    /// Run one template.
    Run { cargo: Vec<String>, template: String, input: Option<String> },
    /// Nothing that it knows.
    Usage,
}

pub enum RequestView {
    Build { cargo: Seq<Seq<char>>, out: Option<Seq<char>> },
    Run { cargo: Seq<Seq<char>>, template: Seq<char>, input: Option<Seq<char>> },
    Usage,
}

impl DeepView for Request {
    type V = RequestView;

    open spec fn deep_view(&self) -> RequestView {
        match self {
            Request::Build { cargo, out } => RequestView::Build {
                cargo: cargo.deep_view(),
                out: out.deep_view(),
            },
            Request::Run { cargo, template, input } => RequestView::Run {
                cargo: cargo.deep_view(),
                template: template@,
                input: input.deep_view(),
            },
            Request::Usage => RequestView::Usage,
        }
    }
}

pub const USAGE: &'static str =
    "usage:\n  cargo athena build [--package P] [--bin B] [--out FILE]\n  cargo athena run --template <template-name> [--package P] [--bin B] [--input JSON]";

pub const NO_TEMPLATE: &'static str = "--template is required";

/// The arguments without the name of the subcommand, which Cargo puts in front.
pub open spec fn own_args(args: Seq<Seq<char>>) -> Seq<Seq<char>> {
    if args.len() > 0 && args[0] == "athena"@ {
        args.drop_first()
    } else {
        args
    }
}

/// What the arguments ask for.
pub open spec fn request_of(args: Seq<Seq<char>>) -> Result<RequestView, Seq<char>> {
    let own = own_args(args);
    if own.len() == 0 {
        Ok(RequestView::Usage)
    } else {
        let rest = own.drop_first();
        if own[0] == "build"@ {
            Ok(
                RequestView::Build {
                    cargo: cargo_args_of(rest),
                    out: text_behind(rest, "--out"@),
                },
            )
        } else if own[0] == "run"@ {
            match text_behind(rest, "--template"@) {
                Some(template) => Ok(
                    RequestView::Run {
                        cargo: cargo_args_of(rest),
                        template,
                        input: text_behind(rest, "--input"@),
                    },
                ),
                None => Err(NO_TEMPLATE@),
            }
        } else {
            Ok(RequestView::Usage)
        }
    }
}

fn texts_from(args: &Vec<String>, from: usize) -> (r: Vec<String>)
    requires
        from <= args@.len(),
    ensures
        r.deep_view() == args.deep_view().skip(from as int),
{
    let ghost all = args.deep_view();
    let mut out: Vec<String> = Vec::new();
    let mut i: usize = from;
    proof {
        assert(out.deep_view() =~= all.subrange(from as int, from as int));
    }
    while i < args.len()
        invariant
            all == args.deep_view(),
            from <= i <= args@.len(),
            out.deep_view() == all.subrange(from as int, i as int),
        decreases args@.len() - i,
    {
        let ghost before = out.deep_view();
        out.push(args[i].clone());
        proof {
            assert(out.deep_view() =~= before.push(args@[i as int]@));
            assert(all.subrange(from as int, i + 1) =~= all.subrange(from as int, i as int).push(
                all[i as int],
            ));
        }
        i = i + 1;
    }
    proof {
        assert(all.subrange(from as int, i as int) =~= all.skip(from as int));
    }
    out
}

/// What the arguments behind the program's name ask for.
pub fn parse_request(args: &Vec<String>) -> (r: Result<Request, String>)
    ensures
        crate::node::agrees(r, request_of(args.deep_view())),
{
    let ghost all = args.deep_view();
    let start: usize = if args.len() > 0 && str_eq(args[0].as_str(), "athena") {
        1
    } else {
        0
    };
    proof {
        assert(all.len() == args@.len());
        if args@.len() > 0 {
            assert(all[0] == args@[0]@);
        }
        assert(own_args(all) =~= all.skip(start as int));
    }
    if start >= args.len() {
        return Ok(Request::Usage);
    }
    let rest: Vec<String> = texts_from(args, start + 1);
    proof {
        let own = own_args(all);
        assert(own[0] == args@[start as int]@);
        assert(own.drop_first() =~= all.skip(start + 1));
    }
    if str_eq(args[start].as_str(), "build") {
        Ok(Request::Build { cargo: cargo_run(&rest), out: opt(&rest, "--out") })
    } else if str_eq(args[start].as_str(), "run") {
        match opt(&rest, "--template") {
            Some(template) => Ok(
                Request::Run { cargo: cargo_run(&rest), template, input: opt(&rest, "--input") },
            ),
            None => Err(NO_TEMPLATE.to_owned()),
        }
    } else {
        Ok(Request::Usage)
    }
}

} // verus!
