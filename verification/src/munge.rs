//! Pure derivers of names, paths and environment-variable names.
//!
//! The emit side and the build side of a workflow binary both call into this
//! module in different processes and have to agree on every character, so each
//! function is a fixed function of its arguments.

use crate::text::{
    alnum, cat2, cat3, cat5, chars_of, digit, has_prefix, is_alnum, is_alpha, is_char, is_digit,
    is_lower, is_upper, lead, lemma_lead, lemma_lead_bounds, lemma_tail, lemma_tail_bounds, lower,
    lower_alpha, lower_char, starts_with, tail, text_of, trim_by, trim_char, trim_end_by,
    trim_start_by, upper, upper_char,
};
use vstd::prelude::*;
use vstd::utf8::encode_utf8;

verus! {

/// In-pod root of the `host!("/p")` mounts.
pub const ATHENA_MOUNTS_DIR: &'static str = "/athena/mounts";

/// In-pod root of the `pvc!(Type)` mounts.
pub const ATHENA_PVCS_DIR: &'static str = "/athena/pvcs";

/// Where input artifact ports land in the pod.
pub const ATHENA_IN_DIR: &'static str = "/athena/artifacts/in";

/// Where output artifact ports are collected from.
pub const ATHENA_OUT_DIR: &'static str = "/athena/artifacts/out";

/// Prefix that marks the tag of a dev build.
pub const DEV_PREFIX: &'static str = "dev-";

pub const LABEL_PKG: &'static str = "cargo.athena/pkg";

pub const LABEL_VERSION: &'static str = "cargo.athena/version";

pub const LABEL_BIN: &'static str = "cargo.athena/bin";

pub const LABEL_TOOLCHAIN: &'static str = "cargo.athena/toolchain";

pub const LABEL_TAG: &'static str = "cargo.athena/tag";

pub const LABEL_CHANNEL: &'static str = "cargo.athena/channel";

pub const LABEL_COMMIT: &'static str = "cargo.athena/commit";

pub const LABEL_DIRTY: &'static str = "cargo.athena/dirty";

pub const FNV_OFFSET: u64 = 0xcbf29ce484222325;

pub const FNV_PRIME: u64 = 0x100000001b3;

// ---- FNV-1a -----------------------------------------------------------------
/// The FNV-1a state after `bytes`.
pub open spec fn fnv(bytes: Seq<u8>) -> u64
    decreases bytes.len(),
{
    if bytes.len() == 0 {
        FNV_OFFSET
    } else {
        (fnv(bytes.drop_last()) ^ (bytes.last() as u64)).wrapping_mul(FNV_PRIME)
    }
}

pub open spec fn hex_digit(n: u64) -> char {
    if n < 10 {
        (n + 48) as char
    } else {
        (n + 87) as char
    }
}

/// The `i`-th of the sixteen hexadecimal digits of `h`, the highest first.
pub open spec fn nibble(h: u64, i: int) -> u64 {
    (h >> ((60 - 4 * i) as u64)) & 0xf
}

/// The sixteen lower-case hexadecimal digits of `h`.
pub open spec fn hex16(h: u64) -> Seq<char> {
    Seq::new(16, |i: int| hex_digit(nibble(h, i)))
}

/// The FNV-1a digest of the UTF-8 bytes of `s`, in hexadecimal.
pub open spec fn fnv_hex(s: Seq<char>) -> Seq<char> {
    hex16(fnv(encode_utf8(s)))
}

/// FNV-1a 64-bit hash of `input`, as sixteen lower-case hexadecimal digits.
pub fn fnv_1a_64_hex(input: &str) -> (r: String)
    ensures
        r@ == fnv_hex(input@),
{
    let bytes = input.as_bytes();
    let mut h: u64 = FNV_OFFSET;
    let mut i: usize = 0;
    proof {
        assert(bytes@.take(0) =~= Seq::<u8>::empty());
    }
    while i < bytes.len()
        invariant
            i <= bytes@.len(),
            h == fnv(bytes@.take(i as int)),
        decreases bytes@.len() - i,
    {
        proof {
            let t = bytes@.take(i + 1);
            assert(t.drop_last() =~= bytes@.take(i as int));
            assert(t.last() == bytes@[i as int]);
        }
        h = (h ^ (bytes[i] as u64)).wrapping_mul(FNV_PRIME);
        i = i + 1;
    }
    proof {
        assert(bytes@.take(i as int) =~= bytes@);
    }
    let mut out: String = String::new();
    let mut k: u64 = 0;
    while k < 16
        invariant
            k <= 16,
            out@ == hex16(h).take(k as int),
        decreases 16 - k,
    {
        let n: u64 = (h >> (60 - 4 * k)) & 0xf;
        proof {
            let x = h >> ((60 - 4 * k) as u64);
            assert(x & 0xf < 16) by (bit_vector);
        }
        if n < 10 {
            out.push(((n + 48) as u8) as char);
        } else {
            out.push(((n + 87) as u8) as char);
        }
        k = k + 1;
        proof {
            assert(out@ =~= hex16(h).take(k as int));
        }
    }
    proof {
        assert(out@ =~= hex16(h));
    }
    out
}

// ---- names ------------------------------------------------------------------
pub open spec fn dash_lower(c: char) -> char {
    if c == '_' {
        '-'
    } else {
        lower(c)
    }
}

/// `s` in lower case with `_` written `-`, without `-` at its ends.
pub open spec fn kebab_of(s: Seq<char>) -> Seq<char> {
    trim_by(s.map_values(|c: char| dash_lower(c)), is_char('-'))
}

/// Kebab form of a Rust name: lower case, `-` for `_`, no `-` at either end.
pub fn kebab(s: &str) -> (r: String)
    ensures
        r@ == kebab_of(s@),
{
    let v: Vec<char> = chars_of(s);
    let mut out: Vec<char> = Vec::new();
    let mut i: usize = 0;
    let ghost m = s@.map_values(|c: char| dash_lower(c));
    while i < v.len()
        invariant
            v@ == s@,
            m == s@.map_values(|c: char| dash_lower(c)),
            i <= v@.len(),
            out@ == m.take(i as int),
        decreases v@.len() - i,
    {
        if v[i] == '_' {
            out.push('-');
        } else {
            out.push(lower_char(v[i]));
        }
        i = i + 1;
        proof {
            assert(out@ =~= m.take(i as int));
        }
    }
    proof {
        assert(out@ =~= m);
    }
    let t: String = text_of(&out);
    trim_char(t.as_str(), '-')
}

/// Whether `c` may stand in a tag as it is.
pub open spec fn tag_char(c: char) -> bool {
    is_lower(c) || is_digit(c)
}

/// The tag of `s` with at most one `-` left over at its end.
pub open spec fn tag_body(s: Seq<char>) -> Seq<char>
    decreases s.len(),
{
    if s.len() == 0 {
        Seq::empty()
    } else {
        let front = tag_body(s.drop_last());
        let c = lower(s.last());
        if tag_char(c) {
            front.push(c)
        } else if front.len() == 0 || front.last() == '-' {
            front
        } else {
            front.push('-')
        }
    }
}

/// The version tag of `s`: its runs of letters and digits in lower case, with
/// one `-` between neighbouring runs.
pub open spec fn tag_of(s: Seq<char>) -> Seq<char> {
    let body = tag_body(s);
    if body.len() > 0 && body.last() == '-' {
        body.drop_last()
    } else {
        body
    }
}

/// DNS-1123-safe version tag: lower case, every other character than a letter
/// or a digit becomes `-`, runs of `-` collapse, and none stands at an end.
pub fn version_tag(raw: &str) -> (r: String)
    ensures
        r@ == tag_of(raw@),
{
    let v: Vec<char> = chars_of(raw);
    let mut out: Vec<char> = Vec::new();
    let mut prev_dash: bool = true;
    let mut i: usize = 0;
    proof {
        assert(v@.take(0) =~= Seq::<char>::empty());
    }
    while i < v.len()
        invariant
            v@ == raw@,
            i <= v@.len(),
            out@ == tag_body(v@.take(i as int)),
            prev_dash == (out@.len() == 0 || out@.last() == '-'),
        decreases v@.len() - i,
    {
        proof {
            let t = v@.take(i + 1);
            assert(t.drop_last() =~= v@.take(i as int));
            assert(t.last() == v@[i as int]);
        }
        let c: char = lower_char(v[i]);
        if lower_alpha(c) || digit(c) {
            out.push(c);
            prev_dash = false;
        } else if !prev_dash {
            out.push('-');
            prev_dash = true;
        }
        i = i + 1;
    }
    proof {
        assert(v@.take(i as int) =~= raw@);
        law_tag_body(raw@);
    }
    if out.len() > 0 && out[out.len() - 1] == '-' {
        out.pop();
    }
    text_of(&out)
}

/// `dev` for the tag of a dev build, else `release`.
pub open spec fn channel(tag: Seq<char>) -> Seq<char> {
    if has_prefix(tag, DEV_PREFIX@) {
        "dev"@
    } else {
        "release"@
    }
}

/// The channel that a tag belongs to.
pub fn channel_of(tag: &str) -> (r: &'static str)
    ensures
        r@ == channel(tag@),
{
    if starts_with(tag, DEV_PREFIX) {
        "dev"
    } else {
        "release"
    }
}

pub open spec fn sealed_tag(baked: Option<Seq<char>>, semver: Seq<char>) -> Seq<char> {
    match baked {
        Some(t) => if tag_of(t).len() > 0 {
            tag_of(t)
        } else {
            tag_of(semver)
        },
        None => tag_of(semver),
    }
}

pub open spec fn opt_str(o: Option<&str>) -> Option<Seq<char>> {
    match o {
        Some(s) => Some(s@),
        None => None,
    }
}

/// The tag that a binary sealed: its baked tag in tag form, or, where that is
/// absent or empty, the tag of its version.
pub fn seal_tag(baked: Option<&str>, semver: &str) -> (r: String)
    ensures
        r@ == sealed_tag(opt_str(baked), semver@),
{
    match baked {
        Some(t) => {
            let tag: String = version_tag(t);
            if !tag.as_str().is_empty() {
                tag
            } else {
                version_tag(semver)
            }
        },
        None => version_tag(semver),
    }
}

pub open spec fn key_of(pkg: Seq<char>, tag: Seq<char>, bin: Seq<char>) -> Seq<char> {
    pkg + "/"@ + tag + "/"@ + (bin + ".tar.gz"@)
}

/// The object key of a binary's tarball: `{pkg}/{tag}/{bin}.tar.gz`.
pub fn binary_key(pkg: &str, tag: &str, bin: &str) -> (r: String)
    ensures
        r@ == key_of(pkg@, tag@, bin@),
{
    let file: String = cat2(bin, ".tar.gz");
    cat5(pkg, "/", tag, "/", file.as_str())
}

pub open spec fn host_mount(p: Seq<char>) -> Seq<char> {
    ATHENA_MOUNTS_DIR@ + "/"@ + fnv_hex(p)
}

pub open spec fn host_volume(p: Seq<char>) -> Seq<char> {
    "host-"@ + fnv_hex(p)
}

/// In-pod mount path of a `host!("/p")` declaration.
pub fn host_mount_path(host_path: &str) -> (r: String)
    ensures
        r@ == host_mount(host_path@),
{
    let h: String = fnv_1a_64_hex(host_path);
    cat3(ATHENA_MOUNTS_DIR, "/", h.as_str())
}

/// Volume name of a host-path mount.
pub fn host_volume_name(host_path: &str) -> (r: String)
    ensures
        r@ == host_volume(host_path@),
{
    let h: String = fnv_1a_64_hex(host_path);
    cat2("host-", h.as_str())
}

pub open spec fn pvc_mount(n: Seq<char>) -> Seq<char> {
    ATHENA_PVCS_DIR@ + "/"@ + fnv_hex(n)
}

pub open spec fn pvc_volume(n: Seq<char>) -> Seq<char> {
    "pvc-"@ + fnv_hex(n)
}

/// In-pod mount path of a claim, keyed by its Argo name.
pub fn pvc_mount_path(argo_name: &str) -> (r: String)
    ensures
        r@ == pvc_mount(argo_name@),
{
    let h: String = fnv_1a_64_hex(argo_name);
    cat3(ATHENA_PVCS_DIR, "/", h.as_str())
}

/// Volume name of a claim's mount.
pub fn pvc_volume_name(argo_name: &str) -> (r: String)
    ensures
        r@ == pvc_volume(argo_name@),
{
    let h: String = fnv_1a_64_hex(argo_name);
    cat2("pvc-", h.as_str())
}

pub open spec fn in_artifact(name: Seq<char>) -> Seq<char> {
    ATHENA_IN_DIR@ + "/"@ + name
}

pub open spec fn out_artifact(name: Seq<char>) -> Seq<char> {
    ATHENA_OUT_DIR@ + "/"@ + name
}

/// In-pod file of the input artifact `name`.
pub fn in_artifact_path(name: &str) -> (r: String)
    ensures
        r@ == in_artifact(name@),
{
    cat3(ATHENA_IN_DIR, "/", name)
}

/// In-pod file of the output artifact `name`.
pub fn out_artifact_path(name: &str) -> (r: String)
    ensures
        r@ == out_artifact(name@),
{
    cat3(ATHENA_OUT_DIR, "/", name)
}

pub open spec fn env_char(c: char) -> char {
    if is_alnum(c) {
        upper(c)
    } else {
        '_'
    }
}

/// `s` in upper case, every other character than a letter or a digit as `_`.
pub open spec fn munged(s: Seq<char>) -> Seq<char> {
    s.map_values(|c: char| env_char(c))
}

pub open spec fn secret_env(name: Seq<char>, key: Seq<char>) -> Seq<char> {
    "ATHENA_SEC_"@ + munged(name) + "__"@ + munged(key)
}

/// Environment variable that carries the secret `key` of `name`.
pub fn secret_env_name(name: &str, key: &str) -> (r: String)
    ensures
        r@ == secret_env(name@, key@),
{
    let mut s: String = "ATHENA_SEC_".to_owned();
    push_munged(&mut s, name);
    s.append("__");
    push_munged(&mut s, key);
    s
}

fn push_munged(out: &mut String, input: &str)
    ensures
        final(out)@ == old(out)@ + munged(input@),
{
    let ghost start = out@;
    let v: Vec<char> = chars_of(input);
    let mut i: usize = 0;
    proof {
        assert(out@ =~= start + munged(input@).take(0));
    }
    while i < v.len()
        invariant
            v@ == input@,
            i <= v@.len(),
            out@ == start + munged(input@).take(i as int),
        decreases v@.len() - i,
    {
        if alnum(v[i]) {
            out.push(upper_char(v[i]));
        } else {
            out.push('_');
        }
        i = i + 1;
        proof {
            assert(out@ =~= start + munged(input@).take(i as int));
        }
    }
    proof {
        assert(munged(input@).take(i as int) =~= munged(input@));
    }
}

// ---- laws -------------------------------------------------------------------
/// Whether `s` is a DNS-1123 label: letters in lower case, digits and `-`, no
/// `-` at an end, at most 63 characters.
pub open spec fn dns_label(s: Seq<char>) -> bool {
    &&& 0 < s.len() <= 63
    &&& s[0] != '-'
    &&& s.last() != '-'
    &&& forall|i: int| 0 <= i < s.len() ==> tag_char(#[trigger] s[i]) || s[i] == '-'
}

/// A digest is sixteen lower-case hexadecimal digits.
pub proof fn law_fnv_hex_shape(s: Seq<char>)
    ensures
        fnv_hex(s).len() == 16,
        forall|i: int|
            0 <= i < 16 ==> is_digit(#[trigger] fnv_hex(s)[i]) || 'a' <= fnv_hex(s)[i] <= 'f',
{
    let h = fnv(encode_utf8(s));
    assert forall|i: int| 0 <= i < 16 implies is_digit(#[trigger] fnv_hex(s)[i]) || 'a'
        <= fnv_hex(s)[i] <= 'f' by {
        let x = h >> ((60 - 4 * i) as u64);
        assert(x & 0xf < 16) by (bit_vector);
    }
}

/// Every volume name that is derived from a path or from a claim is a DNS-1123
/// label, whatever the path or the claim.
pub proof fn law_volume_names_are_labels(s: Seq<char>)
    ensures
        dns_label(host_volume(s)),
        host_volume(s).len() == 21,
        dns_label(pvc_volume(s)),
        pvc_volume(s).len() == 20,
{
    reveal_strlit("host-");
    reveal_strlit("pvc-");
    law_fnv_hex_shape(s);
    let h = fnv_hex(s);
    assert forall|i: int| 0 <= i < 21 implies tag_char(#[trigger] host_volume(s)[i])
        || host_volume(s)[i] == '-' by {
        if i >= 5 {
            assert(host_volume(s)[i] == h[i - 5]);
        }
    }
    assert forall|i: int| 0 <= i < 20 implies tag_char(#[trigger] pvc_volume(s)[i]) || pvc_volume(
        s,
    )[i] == '-' by {
        if i >= 4 {
            assert(pvc_volume(s)[i] == h[i - 4]);
        }
    }
    assert(host_volume(s)[20] == h[15]);
    assert(pvc_volume(s)[19] == h[15]);
}

/// The mount path and the volume name of one path, or of one claim, end in the
/// same digest.
pub proof fn law_mount_and_volume_agree(s: Seq<char>)
    ensures
        host_volume(s) == "host-"@ + host_mount(s).subrange(
            (ATHENA_MOUNTS_DIR@ + "/"@).len() as int,
            host_mount(s).len() as int,
        ),
        pvc_volume(s) == "pvc-"@ + pvc_mount(s).subrange(
            (ATHENA_PVCS_DIR@ + "/"@).len() as int,
            pvc_mount(s).len() as int,
        ),
{
    let a = ATHENA_MOUNTS_DIR@ + "/"@;
    assert(host_mount(s).subrange(a.len() as int, host_mount(s).len() as int) =~= fnv_hex(s));
    let b = ATHENA_PVCS_DIR@ + "/"@;
    assert(pvc_mount(s).subrange(b.len() as int, pvc_mount(s).len() as int) =~= fnv_hex(s));
}

/// A host path is never mounted at its own place: every mount stands below
/// [`ATHENA_MOUNTS_DIR`], at a digest of sixteen digits, so a path of any other form
/// is mounted elsewhere. The one path that could be mounted at its own place is one
/// that is spelt as its own digest there. None is: `extras/own_mount.c`, which is no
/// part of the proof, goes through all that could be.
pub proof fn law_mounted_elsewhere(p: Seq<char>)
    ensures
        has_prefix(host_mount(p), ATHENA_MOUNTS_DIR@ + "/"@),
        host_mount(p).len() == (ATHENA_MOUNTS_DIR@ + "/"@).len() + 16,
        !has_prefix(p, ATHENA_MOUNTS_DIR@ + "/"@) ==> host_mount(p) != p,
        p.len() != (ATHENA_MOUNTS_DIR@ + "/"@).len() + 16 ==> host_mount(p) != p,
        host_mount(p) == p <==> has_prefix(p, ATHENA_MOUNTS_DIR@ + "/"@) && p.skip(
            (ATHENA_MOUNTS_DIR@ + "/"@).len() as int,
        ) == fnv_hex(p),
{
    let d = ATHENA_MOUNTS_DIR@ + "/"@;
    let m = host_mount(p);
    assert(m.take(d.len() as int) =~= d);
    assert(m.skip(d.len() as int) =~= fnv_hex(p));
    if has_prefix(p, d) && p.skip(d.len() as int) == fnv_hex(p) {
        assert(p =~= p.take(d.len() as int) + p.skip(d.len() as int));
        assert(m =~= p);
    }
}

/// A kebab name holds no `_` and no upper-case letter, and no `-` stands at
/// either of its ends.
pub proof fn law_kebab_shape(s: Seq<char>)
    ensures
        kebab_of(s).len() > 0 ==> kebab_of(s)[0] != '-' && kebab_of(s).last() != '-',
        forall|i: int|
            0 <= i < kebab_of(s).len() ==> !is_upper(#[trigger] kebab_of(s)[i]) && kebab_of(s)[i]
                != '_',
{
    let m = s.map_values(|c: char| dash_lower(c));
    let f = is_char('-');
    let t = trim_start_by(m, f);
    lemma_lead_bounds(m, f);
    lemma_tail_bounds(t, f);
    let k = kebab_of(s);
    if k.len() > 0 {
        assert(k[0] == t[0]);
        assert(t[0] == m[lead(m, f) as int]);
        assert(k.last() == t[t.len() - tail(t, f) - 1]);
    }
    assert forall|i: int| 0 <= i < k.len() implies !is_upper(#[trigger] k[i]) && k[i] != '_' by {
        assert(k[i] == m[lead(m, f) + i]);
    }
}

/// Kebab form is its own kebab form.
pub proof fn law_kebab_idempotent(s: Seq<char>)
    ensures
        kebab_of(kebab_of(s)) == kebab_of(s),
{
    law_kebab_shape(s);
    let k = kebab_of(s);
    let m = k.map_values(|c: char| dash_lower(c));
    assert forall|i: int| 0 <= i < k.len() implies #[trigger] m[i] == k[i] by {
        assert(!is_upper(k[i]) && k[i] != '_');
    }
    assert(m =~= k);
    lemma_lead(k, is_char('-'), 0);
    let t = trim_start_by(k, is_char('-'));
    assert(t =~= k);
    lemma_tail(k, is_char('-'), 0);
    assert(trim_end_by(k, is_char('-')) =~= k);
}

proof fn law_tag_body(s: Seq<char>)
    ensures
        ({
            let b = tag_body(s);
            &&& b.len() > 0 ==> b[0] != '-'
            &&& b.len() == 1 ==> b.last() != '-'
            &&& forall|i: int| 0 <= i < b.len() ==> tag_char(#[trigger] b[i]) || b[i] == '-'
            &&& forall|i: int| 0 < i < b.len() ==> !(#[trigger] b[i] == '-' && b[i - 1] == '-')
        }),
    decreases s.len(),
{
    if s.len() > 0 {
        law_tag_body(s.drop_last());
    }
}

/// Whether `t` is in tag form: letters in lower case and digits, with single
/// `-` between them and none at either end.
pub open spec fn is_tag(t: Seq<char>) -> bool {
    &&& t.len() > 0 ==> t[0] != '-' && t.last() != '-'
    &&& forall|i: int| 0 <= i < t.len() ==> tag_char(#[trigger] t[i]) || t[i] == '-'
    &&& forall|i: int| 0 < i < t.len() ==> !(#[trigger] t[i] == '-' && t[i - 1] == '-')
}

/// Every version tag is in tag form.
pub proof fn law_version_tag_is_safe(s: Seq<char>)
    ensures
        is_tag(tag_of(s)),
{
    law_tag_body(s);
}

proof fn lemma_tag_body_fixed(t: Seq<char>)
    requires
        t.len() > 0 ==> t[0] != '-',
        forall|i: int| 0 <= i < t.len() ==> tag_char(#[trigger] t[i]) || t[i] == '-',
        forall|i: int| 0 < i < t.len() ==> !(#[trigger] t[i] == '-' && t[i - 1] == '-'),
    ensures
        tag_body(t) == t,
    decreases t.len(),
{
    if t.len() > 0 {
        lemma_tag_body_fixed(t.drop_last());
        assert(t =~= t.drop_last().push(t.last()));
        let i = t.len() - 1;
        assert(tag_char(t[i]) || t[i] == '-');
    } else {
        assert(t =~= Seq::<char>::empty());
    }
}

/// A text in tag form is its own tag; so the tag of a tag is that tag.
pub proof fn law_version_tag_fixes_tags(t: Seq<char>)
    requires
        is_tag(t),
    ensures
        tag_of(t) == t,
{
    lemma_tag_body_fixed(t);
}

/// Taking the tag twice is taking it once.
pub proof fn law_version_tag_idempotent(s: Seq<char>)
    ensures
        tag_of(tag_of(s)) == tag_of(s),
{
    law_version_tag_is_safe(s);
    law_version_tag_fixes_tags(tag_of(s));
}

proof fn lemma_tag_keeps(s: Seq<char>)
    ensures
        tag_body(s).filter(|c: char| c != '-') == s.map_values(|c: char| lower(c)).filter(
            |c: char| tag_char(c),
        ),
    decreases s.len(),
{
    let low = |c: char| lower(c);
    let keep = |c: char| tag_char(c);
    let nodash = |c: char| c != '-';
    reveal(Seq::filter);
    if s.len() > 0 {
        lemma_tag_keeps(s.drop_last());
        let front = tag_body(s.drop_last());
        let c = lower(s.last());
        assert(s.map_values(low) =~= s.drop_last().map_values(low).push(c));
        assert(s.map_values(low).drop_last() =~= s.drop_last().map_values(low));
        assert(front.push(c).drop_last() =~= front);
        assert(front.push('-').drop_last() =~= front);
    } else {
        assert(s.map_values(low) =~= Seq::<char>::empty());
    }
}

/// A version tag keeps every letter and every digit of its source, in order
/// and in lower case, and adds nothing but `-`.
pub proof fn law_version_tag_keeps_alphanumerics(s: Seq<char>)
    ensures
        tag_of(s).filter(|c: char| c != '-') == s.map_values(|c: char| lower(c)).filter(
            |c: char| tag_char(c),
        ),
{
    lemma_tag_keeps(s);
    reveal(Seq::filter);
}

proof fn lemma_tag_body_empty(s: Seq<char>)
    ensures
        tag_body(s).len() == 0 <==> forall|i: int| 0 <= i < s.len() ==> !is_alnum(#[trigger] s[i]),
    decreases s.len(),
{
    if s.len() > 0 {
        lemma_tag_body_empty(s.drop_last());
        assert(forall|i: int| 0 <= i < s.len() - 1 ==> s.drop_last()[i] == #[trigger] s[i]);
        assert(s.last() == s[s.len() - 1]);
        if tag_body(s).len() == 0 {
            assert forall|i: int| 0 <= i < s.len() implies !is_alnum(#[trigger] s[i]) by {
                if i < s.len() - 1 {
                    assert(!is_alnum(s.drop_last()[i]));
                }
            }
        }
    }
}

/// A version tag is empty exactly where its source holds no ASCII letter and
/// no digit.
pub proof fn law_version_tag_empty_iff(s: Seq<char>)
    ensures
        tag_of(s).len() == 0 <==> forall|i: int| 0 <= i < s.len() ==> !is_alnum(#[trigger] s[i]),
{
    law_tag_body(s);
    lemma_tag_body_empty(s);
}

/// Sealing a text that is in tag form and not empty gives it back, whatever
/// the version.
pub proof fn law_seal_tag_fixes_tags(t: Seq<char>, semver: Seq<char>)
    requires
        is_tag(t),
        t.len() > 0,
    ensures
        sealed_tag(Some(t), semver) == t,
{
    law_version_tag_fixes_tags(t);
}

/// Whatever a secret is called, its variable is a POSIX environment-variable
/// name.
pub proof fn law_secret_env_is_posix(name: Seq<char>, key: Seq<char>)
    ensures
        ({
            let e = secret_env(name, key);
            &&& e.len() > 0
            &&& is_alpha(e[0]) || e[0] == '_'
            &&& forall|i: int| 0 <= i < e.len() ==> is_alnum(#[trigger] e[i]) || e[i] == '_'
        }),
{
    reveal_strlit("ATHENA_SEC_");
    reveal_strlit("__");
    let e = secret_env(name, key);
    let a = munged(name);
    let b = munged(key);
    assert forall|i: int| 0 <= i < e.len() implies is_alnum(#[trigger] e[i]) || e[i] == '_' by {
        if i < 11 {
            assert(e[i] == "ATHENA_SEC_"@[i]);
        } else if i < 11 + a.len() {
            assert(e[i] == a[i - 11]);
            assert(a[i - 11] == env_char(name[i - 11]));
        } else if i < 13 + a.len() {
            assert(e[i] == "__"@[i - 11 - a.len()]);
        } else {
            assert(e[i] == b[i - 13 - a.len()]);
            assert(b[i - 13 - a.len()] == env_char(key[i - 13 - a.len()]));
        }
    }
}

} // verus!
