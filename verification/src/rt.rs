//! What a body that runs in a pod finds where.

use crate::munge::{host_mount, host_mount_path, secret_env, secret_env_name};
use crate::outside::{debug_str, debug_text};
use crate::text::{cat3, cat5, cat7, starts_with, strip_prefix, after_prefix, has_prefix};
use vstd::prelude::*;

verus! {

pub const IN_DIR: &'static str = "/athena/artifacts/in";

pub const OUT_DIR: &'static str = "/athena/artifacts/out";

pub const OFFLOADED_PREFIX: &'static str = "/tmp/argo_arg_";

/// Where a host path is mounted.
pub fn host_path(host: &str) -> (r: String)
    ensures
        r@ == host_mount(host@),
{
    host_mount_path(host)
}

/// A path below a directory; an absolute path stands for itself.
pub open spec fn below(dir: Seq<char>, name: Seq<char>) -> Seq<char> {
    if has_prefix(name, "/"@) {
        name
    } else {
        dir + "/"@ + name
    }
}

fn join_path(dir: &str, name: &str) -> (r: String)
    ensures
        r@ == below(dir@, name@),
{
    if starts_with(name, "/") {
        name.to_owned()
    } else {
        cat3(dir, "/", name)
    }
}

/// The file that an input artifact is in.
pub fn in_path(name: &str) -> (r: String)
    ensures
        r@ == below(IN_DIR@, name@),
{
    join_path(IN_DIR, name)
}

/// The file that an output artifact goes to.
pub fn out_path(name: &str) -> (r: String)
    ensures
        r@ == below(OUT_DIR@, name@),
{
    join_path(OUT_DIR, name)
}

/// A text that is to be written to a file.
pub struct Saved {
    pub path: String,
    pub text: String,
}

/// The file that a text artifact is written to, and what goes in.
pub fn save_artifact_str(name: &str, data: &str) -> (r: Saved)
    ensures
        r.path@ == below(OUT_DIR@, name@),
        r.text@ == data@,
{
    Saved { path: out_path(name), text: data.to_owned() }
}

/// Why an artifact could not be read or written: `what` is the operation, `why`
/// the reason given by the system.
pub fn artifact_problem(what: &str, name: &str, path: &str, why: &str) -> (r: String)
    ensures
        r@ == what@ + "("@ + debug_text(name@) + ") "@ + path@ + ": "@ + why@,
{
    let q: String = debug_str(name);
    cat7(what, "(", q.as_str(), ") ", path, ": ", why)
}

/// A required secret, from what its environment variable holds or why it could not
/// be read.
pub open spec fn secret_of(
    name: Seq<char>,
    key: Seq<char>,
    found: Result<Seq<char>, Seq<char>>,
) -> Result<Seq<char>, Seq<char>> {
    match found {
        Ok(v) => Ok(v),
        Err(e) => Err(
            "athena: secret!("@ + debug_text(name) + ", "@ + debug_text(key) + ") env var `"@ + (
            secret_env(name, key) + "` missing: "@ + e),
        ),
    }
}

/// A required secret.
pub fn secret_value(name: &str, key: &str, found: Result<String, String>) -> (r: Result<
    String,
    String,
>)
    ensures
        match (r, found) {
            (Ok(a), Ok(b)) => secret_of(name@, key@, Ok(b@)) == Ok::<Seq<char>, Seq<char>>(a@),
            (Err(a), Err(b)) => secret_of(name@, key@, Err(b@)) == Err::<Seq<char>, Seq<char>>(a@),
            _ => false,
        },
{
    match found {
        Ok(v) => Ok(v),
        Err(e) => {
            let var: String = secret_env_name(name, key);
            let a: String = debug_str(name);
            let b: String = debug_str(key);
            let mut m: String = cat5(
                "athena: secret!(",
                a.as_str(),
                ", ",
                b.as_str(),
                ") env var `",
            );
            let end: String = cat3(var.as_str(), "` missing: ", e.as_str());
            m.append(end.as_str());
            Err(m)
        },
    }
}

/// The file that holds an argument in its place, where Argo moved the argument
/// out of the command line.
pub open spec fn offloaded(raw: Seq<char>, moved: bool) -> Option<Seq<char>> {
    if !moved {
        None
    } else {
        match after_prefix(raw, "@"@) {
            Some(p) => if has_prefix(p, OFFLOADED_PREFIX@) {
                Some(p)
            } else {
                None
            },
            None => None,
        }
    }
}

/// The file to read in place of an argument; nothing where the argument stands for
/// itself. `moved` says whether Argo moved arguments out of the command line.
pub fn deref_offloaded_arg(raw: &str, moved: bool) -> (r: Option<String>)
    ensures
        r.deep_view() == offloaded(raw@, moved),
{
    if !moved {
        return None;
    }
    match strip_prefix(raw, "@") {
        Some(p) => {
            if starts_with(p.as_str(), OFFLOADED_PREFIX) {
                Some(p)
            } else {
                None
            }
        },
        None => None,
    }
}

/// An argument is replaced by a file only where Argo moved arguments out and it
/// names one of Argo's files; any other stands for itself.
pub proof fn law_arguments_stand_for_themselves(raw: Seq<char>, moved: bool)
    ensures
        offloaded(raw, moved) is Some <==> moved && has_prefix(raw, "@"@ + OFFLOADED_PREFIX@),
        offloaded(raw, moved) matches Some(p) ==> raw == "@"@ + p,
{
    let at = "@"@;
    let pre = OFFLOADED_PREFIX@;
    let both = at + pre;
    if has_prefix(raw, both) {
        let head = raw.subrange(0, both.len() as int);
        assert(head =~= both);
        assert(raw.subrange(0, at.len() as int) =~= at) by {
            assert forall|i: int| 0 <= i < at.len() implies raw[i] == at[i] by {
                assert(head[i] == both[i]);
            }
        }
        let rest = raw.subrange(at.len() as int, raw.len() as int);
        assert(rest.subrange(0, pre.len() as int) =~= pre) by {
            assert forall|i: int| 0 <= i < pre.len() implies rest[i] == pre[i] by {
                assert(head[at.len() + i] == both[at.len() + i]);
            }
        }
    }
    if has_prefix(raw, at) {
        let rest = raw.subrange(at.len() as int, raw.len() as int);
        assert(raw =~= at + rest);
        if has_prefix(rest, pre) {
            assert(raw.subrange(0, both.len() as int) =~= both) by {
                assert forall|i: int| 0 <= i < both.len() implies raw[i] == both[i] by {
                    if i >= at.len() {
                        assert(rest.subrange(0, pre.len() as int)[i - at.len()] == pre[i
                            - at.len()]);
                    } else {
                        assert(raw.subrange(0, at.len() as int)[i] == at[i]);
                    }
                }
            }
        }
    }
}

} // verus!
