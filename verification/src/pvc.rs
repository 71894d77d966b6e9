//! Volumes that outlive a pod: claims that a run makes for itself, and claims
//! that are there before.

use crate::ast::{FnDecl, Path, PathView};
use crate::context::{FragmentReg, FragmentView};
use crate::folds::{lemma_map_res_all, lemma_map_res_step, map_res};
use crate::munge::{kebab, kebab_of, pvc_mount, pvc_mount_path};
use crate::names::{dns1123_violation, subdomain_problem};
use crate::node::agrees;
use crate::outside::{debug_str, debug_text};
use crate::scan::{found_in_stmts, scan_body, scan_of, BodyScan};
use crate::text::{cat3, str_eq};
use vstd::prelude::*;

verus! {

/// The structure that an attribute stands on.
pub struct StructDecl {
    pub name: String,
    pub generic: bool,
    pub unit: bool,
}

/// `#[ephemeral_pvc(…)]`.
pub struct EphemeralArgs {
    pub name: Option<String>,
    pub size: Option<String>,
    pub access_modes: Vec<String>,
    pub storage_class: Option<String>,
}

/// `#[external_pvc(…)]`.
pub struct ExternalArgs {
    pub name: Option<String>,
    pub claim_name: Option<String>,
    pub read_only: bool,
}

/// Who makes a claim, and how long it lives.
#[derive(Clone, Copy, PartialEq, Eq, Debug, Structural)]
pub enum PvcLifecycle {
    /// Made for a run and deleted with it.
    Ephemeral,
    /// There before the run.
    External,
}

/// A declared claim.
pub struct PvcReg {
    pub argo_name: String,
    pub mount_path: String,
    pub lifecycle: PvcLifecycle,
    pub size: String,
    pub access_modes: Vec<String>,
    pub storage_class_name: String,
    pub claim_name: String,
    pub read_only: bool,
}

#[verifier::ext_equal]
pub struct PvcRegView {
    pub argo_name: Seq<char>,
    pub mount_path: Seq<char>,
    pub lifecycle: PvcLifecycle,
    pub size: Seq<char>,
    pub access_modes: Seq<Seq<char>>,
    pub storage_class_name: Seq<char>,
    pub claim_name: Seq<char>,
    pub read_only: bool,
}

impl DeepView for PvcReg {
    type V = PvcRegView;

    open spec fn deep_view(&self) -> PvcRegView {
        PvcRegView {
            argo_name: self.argo_name@,
            mount_path: self.mount_path@,
            lifecycle: self.lifecycle,
            size: self.size@,
            access_modes: self.access_modes.deep_view(),
            storage_class_name: self.storage_class_name@,
            claim_name: self.claim_name@,
            read_only: self.read_only,
        }
    }
}

pub const PVC_GENERIC: &'static str =
    "`#[ephemeral_pvc]` / `#[external_pvc]` requires a unit struct with no generics: write `pub struct MyPvc;`";

pub const PVC_FIELDS: &'static str =
    "`#[ephemeral_pvc]` / `#[external_pvc]` requires a unit struct (no fields): write `pub struct MyPvc;`";

pub const PVC_NO_SIZE: &'static str =
    "`#[ephemeral_pvc(...)]` requires `size = \"<quantity>\"` (e.g. `size = \"10Gi\"`)";

pub const PVC_NO_MODES: &'static str =
    "`#[ephemeral_pvc(...)]` requires `access_modes = [\"...\"]` (e.g. `[\"ReadWriteMany\"]`)";

pub const PVC_NO_CLAIM: &'static str =
    "`#[external_pvc(...)]` requires `claim_name = \"<existing-pvc-name>\"`";

pub const PVC_BAD_NAME: &'static str =
    "`name` must be a valid DNS-1123 subdomain: lowercase alphanumeric / `-` / `.`, 1..=253 chars, no leading/trailing hyphen";

/// Why a structure cannot stand for a claim.
pub open spec fn struct_problem(s: StructDecl) -> Option<Seq<char>> {
    if s.generic {
        Some(PVC_GENERIC@)
    } else if !s.unit {
        Some(PVC_FIELDS@)
    } else {
        None
    }
}

/// Checks that a structure can stand for a claim.
pub fn validate_unit_struct(s: &StructDecl) -> (r: Result<(), String>)
    ensures
        match r {
            Ok(_) => struct_problem(*s) is None,
            Err(m) => struct_problem(*s) == Some(m@),
        },
{
    if s.generic {
        Err(PVC_GENERIC.to_owned())
    } else if !s.unit {
        Err(PVC_FIELDS.to_owned())
    } else {
        Ok(())
    }
}

/// The name of a claim: the one that is given, where it can be a name, or that of
/// the crate and of the structure.
pub open spec fn claim_name_of(over: Option<Seq<char>>, krate: Seq<char>, rust: Seq<char>) -> Result<
    Seq<char>,
    Seq<char>,
> {
    match over {
        Some(n) => if subdomain_problem(n) is Some {
            Err(PVC_BAD_NAME@)
        } else {
            Ok(n)
        },
        None => Ok(kebab_of(krate) + "-"@ + kebab_of(rust)),
    }
}

/// The name of a claim.
pub fn argo_name_for(over: &Option<String>, krate: &str, rust: &str) -> (r: Result<String, String>)
    ensures
        agrees(r, claim_name_of(over.deep_view(), krate@, rust@)),
{
    match over {
        Some(n) => {
            if dns1123_violation(n.as_str()).is_some() {
                Err(PVC_BAD_NAME.to_owned())
            } else {
                Ok(n.clone())
            }
        },
        None => {
            let a: String = kebab(krate);
            let b: String = kebab(rust);
            Ok(cat3(a.as_str(), "-", b.as_str()))
        },
    }
}

pub open spec fn is_access_mode(m: Seq<char>) -> bool {
    m == "ReadWriteOnce"@ || m == "ReadWriteMany"@ || m == "ReadOnlyMany"@ || m
        == "ReadWriteOncePod"@
}

pub open spec fn access_mode(m: Seq<char>) -> Result<Seq<char>, Seq<char>> {
    if is_access_mode(m) {
        Ok(m)
    } else {
        Err(
            "`access_modes` entry "@ + debug_text(m)
                + " not a K8s access mode (one of: ReadWriteOnce, ReadWriteMany, ReadOnlyMany, ReadWriteOncePod)"@,
        )
    }
}

pub open spec fn access_mode_fn() -> spec_fn(Seq<char>) -> Result<Seq<char>, Seq<char>> {
    |m: Seq<char>| access_mode(m)
}

fn check_modes(modes: &Vec<String>) -> (r: Result<Vec<String>, String>)
    ensures
        agrees(r, map_res(modes.deep_view(), access_mode_fn())),
{
    let ghost f = access_mode_fn();
    let ghost all = modes.deep_view();
    let mut out: Vec<String> = Vec::new();
    let mut i: usize = 0;
    proof {
        lemma_map_res_all(all, f);
        assert(out.deep_view() =~= Seq::<Seq<char>>::empty());
    }
    while i < modes.len()
        invariant
            f == access_mode_fn(),
            all == modes.deep_view(),
            i <= modes@.len(),
            map_res(all.take(i as int), f) == Ok::<Seq<Seq<char>>, Seq<char>>(out.deep_view()),
        decreases modes@.len() - i,
    {
        proof {
            lemma_map_res_step(all, f, i as int);
            assert(all[i as int] == modes@[i as int]@);
        }
        let m: &str = modes[i].as_str();
        if str_eq(m, "ReadWriteOnce") || str_eq(m, "ReadWriteMany") || str_eq(m, "ReadOnlyMany")
            || str_eq(m, "ReadWriteOncePod") {
            let ghost before = out.deep_view();
            out.push(modes[i].clone());
            proof {
                assert(out.deep_view() =~= before.push(modes@[i as int]@));
            }
        } else {
            let q: String = debug_str(m);
            return Err(
                cat3(
                    "`access_modes` entry ",
                    q.as_str(),
                    " not a K8s access mode (one of: ReadWriteOnce, ReadWriteMany, ReadOnlyMany, ReadWriteOncePod)",
                ),
            );
        }
        i = i + 1;
    }
    proof {
        lemma_map_res_all(all, f);
    }
    Ok(out)
}

pub open spec fn filled(o: Option<Seq<char>>) -> bool {
    o matches Some(s) && s.len() > 0
}

pub open spec fn or_empty(o: Option<Seq<char>>) -> Seq<char> {
    match o {
        Some(s) => s,
        None => Seq::empty(),
    }
}

/// The claim that an `#[ephemeral_pvc]` structure of the crate `krate` declares.
pub open spec fn ephemeral_of(s: StructDecl, a: EphemeralArgs, krate: Seq<char>) -> Result<
    PvcRegView,
    Seq<char>,
> {
    if struct_problem(s) is Some {
        Err(struct_problem(s)->0)
    } else if !filled(a.size.deep_view()) {
        Err(PVC_NO_SIZE@)
    } else if a.access_modes@.len() == 0 {
        Err(PVC_NO_MODES@)
    } else {
        match map_res(a.access_modes.deep_view(), access_mode_fn()) {
            Err(m) => Err(m),
            Ok(modes) => match claim_name_of(a.name.deep_view(), krate, s.name@) {
                Err(m) => Err(m),
                Ok(name) => Ok(
                    PvcRegView {
                        argo_name: name,
                        mount_path: pvc_mount(name),
                        lifecycle: PvcLifecycle::Ephemeral,
                        size: a.size->0@,
                        access_modes: modes,
                        storage_class_name: or_empty(a.storage_class.deep_view()),
                        claim_name: Seq::empty(),
                        read_only: false,
                    },
                ),
            },
        }
    }
}

fn text_or_empty(o: &Option<String>) -> (r: String)
    ensures
        r@ == or_empty(o.deep_view()),
{
    match o {
        Some(s) => s.clone(),
        None => empty_text(),
    }
}

fn empty_text() -> (r: String)
    ensures
        r@ == Seq::<char>::empty(),
{
    let s: String = String::new();
    proof {
        assert(s@ =~= Seq::<char>::empty());
    }
    s
}

/// Reads an `#[ephemeral_pvc]` structure.
pub fn declare_ephemeral(s: &StructDecl, a: &EphemeralArgs, krate: &str) -> (r: Result<
    PvcReg,
    String,
>)
    ensures
        agrees(r, ephemeral_of(*s, *a, krate@)),
{
    match validate_unit_struct(s) {
        Ok(_) => {},
        Err(m) => {
            return Err(m);
        },
    }
    let size: String = text_or_empty(&a.size);
    if size.as_str().is_empty() {
        return Err(PVC_NO_SIZE.to_owned());
    }
    if a.access_modes.len() == 0 {
        return Err(PVC_NO_MODES.to_owned());
    }
    let modes: Vec<String> = match check_modes(&a.access_modes) {
        Ok(m) => m,
        Err(m) => {
            return Err(m);
        },
    };
    match argo_name_for(&a.name, krate, s.name.as_str()) {
        Err(m) => Err(m),
        Ok(name) => Ok(
            PvcReg {
                mount_path: pvc_mount_path(name.as_str()),
                argo_name: name,
                lifecycle: PvcLifecycle::Ephemeral,
                size,
                access_modes: modes,
                storage_class_name: text_or_empty(&a.storage_class),
                claim_name: empty_text(),
                read_only: false,
            },
        ),
    }
}

/// The claim that an `#[external_pvc]` structure of the crate `krate` declares.
pub open spec fn external_of(s: StructDecl, a: ExternalArgs, krate: Seq<char>) -> Result<
    PvcRegView,
    Seq<char>,
> {
    if struct_problem(s) is Some {
        Err(struct_problem(s)->0)
    } else if !filled(a.claim_name.deep_view()) {
        Err(PVC_NO_CLAIM@)
    } else {
        match claim_name_of(a.name.deep_view(), krate, s.name@) {
            Err(m) => Err(m),
            Ok(name) => Ok(
                PvcRegView {
                    argo_name: name,
                    mount_path: pvc_mount(name),
                    lifecycle: PvcLifecycle::External,
                    size: Seq::empty(),
                    access_modes: Seq::empty(),
                    storage_class_name: Seq::empty(),
                    claim_name: a.claim_name->0@,
                    read_only: a.read_only,
                },
            ),
        }
    }
}

/// Reads an `#[external_pvc]` structure.
pub fn declare_external(s: &StructDecl, a: &ExternalArgs, krate: &str) -> (r: Result<
    PvcReg,
    String,
>)
    ensures
        agrees(r, external_of(*s, *a, krate@)),
{
    match validate_unit_struct(s) {
        Ok(_) => {},
        Err(m) => {
            return Err(m);
        },
    }
    let claim: String = text_or_empty(&a.claim_name);
    if claim.as_str().is_empty() {
        return Err(PVC_NO_CLAIM.to_owned());
    }
    match argo_name_for(&a.name, krate, s.name.as_str()) {
        Err(m) => Err(m),
        Ok(name) => {
            let r: PvcReg = PvcReg {
                mount_path: pvc_mount_path(name.as_str()),
                argo_name: name,
                lifecycle: PvcLifecycle::External,
                size: empty_text(),
                access_modes: Vec::new(),
                storage_class_name: empty_text(),
                claim_name: claim,
                read_only: a.read_only,
            };
            proof {
                assert(r.deep_view().access_modes =~= Seq::<Seq<char>>::empty());
            }
            Ok(r)
        },
    }
}

// ---- fragments --------------------------------------------------------------------------
/// The name of the claim that a path stands for.
pub open spec fn claim_at(claims: Seq<(Seq<char>, Seq<char>)>, text: Seq<char>) -> Result<
    Seq<char>,
    Seq<char>,
>
    decreases claims.len(),
{
    if claims.len() == 0 {
        Err("cannot find the claim `"@ + text + "`"@)
    } else if claims[0].0 == text {
        Ok(claims[0].1)
    } else {
        claim_at(claims.drop_first(), text)
    }
}

pub open spec fn claim_fn(claims: Seq<(Seq<char>, Seq<char>)>) -> spec_fn(PathView) -> Result<
    Seq<char>,
    Seq<char>,
> {
    |p: PathView| claim_at(claims, p.text)
}

fn find_claim(claims: &Vec<(String, String)>, text: &str) -> (r: Result<String, String>)
    ensures
        agrees(r, claim_at(claims.deep_view(), text@)),
{
    let ghost all = claims.deep_view();
    let mut i: usize = 0;
    proof {
        assert(all.skip(0) =~= all);
    }
    while i < claims.len()
        invariant
            all == claims.deep_view(),
            i <= claims@.len(),
            claim_at(all, text@) == claim_at(all.skip(i as int), text@),
        decreases claims@.len() - i,
    {
        proof {
            assert(all.skip(i as int)[0] == claims@[i as int].deep_view());
            assert(all.skip(i as int).drop_first() =~= all.skip(i + 1));
        }
        if str_eq(claims[i].0.as_str(), text) {
            return Ok(claims[i].1.clone());
        }
        i = i + 1;
    }
    Err(cat3("cannot find the claim `", text, "`"))
}

/// The names of the claims that paths stand for.
pub fn find_claims(paths: &Vec<Path>, claims: &Vec<(String, String)>) -> (r: Result<
    Vec<String>,
    String,
>)
    ensures
        agrees(r, map_res(paths.deep_view(), claim_fn(claims.deep_view()))),
{
    let ghost f = claim_fn(claims.deep_view());
    let ghost all = paths.deep_view();
    let mut out: Vec<String> = Vec::new();
    let mut i: usize = 0;
    proof {
        lemma_map_res_all(all, f);
        assert(out.deep_view() =~= Seq::<Seq<char>>::empty());
    }
    while i < paths.len()
        invariant
            f == claim_fn(claims.deep_view()),
            all == paths.deep_view(),
            i <= paths@.len(),
            map_res(all.take(i as int), f) == Ok::<Seq<Seq<char>>, Seq<char>>(out.deep_view()),
        decreases paths@.len() - i,
    {
        proof {
            lemma_map_res_step(all, f, i as int);
            assert(all[i as int] == paths@[i as int].deep_view());
        }
        match find_claim(claims, paths[i].text.as_str()) {
            Ok(n) => {
                let ghost before = out.deep_view();
                let ghost nv = n@;
                out.push(n);
                proof {
                    assert(out.deep_view() =~= before.push(nv));
                }
            },
            Err(m) => {
                return Err(m);
            },
        }
        i = i + 1;
    }
    proof {
        lemma_map_res_all(all, f);
    }
    Ok(out)
}

/// What a `#[fragment]` function declares, where paths stand for the claims named
/// in `claims`.
pub open spec fn fragment_of(f: FnDecl, claims: Seq<(Seq<char>, Seq<char>)>) -> Result<
    FragmentView,
    Seq<char>,
> {
    let s = scan_of(found_in_stmts(f.body@));
    match map_res(s.pvc_types, claim_fn(claims)) {
        Err(m) => Err(m),
        Ok(pvc_argo_names) => Ok(
            FragmentView {
                rust_name: f.name@,
                host_paths: s.host_paths,
                in_artifacts: s.in_artifacts,
                out_artifacts: s.out_artifacts,
                secrets: s.secrets,
                pvc_argo_names,
                callees: s.callees,
            },
        ),
    }
}

/// Reads a `#[fragment]` function.
pub fn declare_fragment(f: &FnDecl, claims: &Vec<(String, String)>) -> (r: Result<
    FragmentReg,
    String,
>)
    ensures
        agrees(r, fragment_of(*f, claims.deep_view())),
{
    let s: BodyScan = scan_body(f);
    match find_claims(&s.pvc_types, claims) {
        Err(m) => Err(m),
        Ok(pvc_argo_names) => Ok(
            FragmentReg {
                rust_name: f.name.clone(),
                host_paths: s.host_paths,
                in_artifacts: s.in_artifacts,
                out_artifacts: s.out_artifacts,
                secrets: s.secrets,
                pvc_argo_names,
                callees: s.callees,
            },
        ),
    }
}

} // verus!
