//! The claims of a program: which of them a run makes for itself, and how a pod
//! mounts them.

use crate::api::{
    ObjectMeta, ObjectMetaView, PersistentVolumeClaim, PersistentVolumeClaimSpec,
    PersistentVolumeClaimSpecView, PersistentVolumeClaimView, PersistentVolumeClaimVolumeSource,
    PersistentVolumeClaimVolumeSourceView, Volume, VolumeMount, VolumeMountView,
    VolumeResourceRequirements, VolumeResourceRequirementsView, VolumeView,
};
use crate::folds::{lemma_map_res_all, lemma_map_res_step, map_res};
use crate::maps::{Data, TextMap};
use crate::munge::{pvc_mount, pvc_mount_path, pvc_volume, pvc_volume_name};
use crate::node::agrees;
use crate::pvc::{PvcLifecycle, PvcReg, PvcRegView};
use crate::sorted::{
    in_order_by, lemma_place_at, lemma_place_inserts, lemma_place_sorted, place,
};
use crate::text::{cat3, less, str_eq, text_less};
use vstd::prelude::*;

verus! {

// ---- which claims there are -----------------------------------------------------------
/// The claim of this name; of two with one name, the first.
pub open spec fn reg_at(regs: Seq<PvcRegView>, name: Seq<char>) -> Result<PvcRegView, Seq<char>>
    decreases regs.len(),
{
    if regs.len() == 0 {
        Err("no claim is called `"@ + name + "`"@)
    } else if regs[0].argo_name == name {
        Ok(regs[0])
    } else {
        reg_at(regs.drop_first(), name)
    }
}

pub open spec fn reg_fn(regs: Seq<PvcRegView>) -> spec_fn(Seq<char>) -> Result<
    PvcRegView,
    Seq<char>,
> {
    |name: Seq<char>| reg_at(regs, name)
}

/// The claim of this name.
pub fn find_reg<'a>(regs: &'a Vec<PvcReg>, name: &str) -> (r: Result<&'a PvcReg, String>)
    ensures
        agrees(r, reg_at(regs.deep_view(), name@)),
{
    let ghost all = regs.deep_view();
    let mut i: usize = 0;
    proof {
        assert(all.skip(0) =~= all);
    }
    while i < regs.len()
        invariant
            all == regs.deep_view(),
            i <= regs@.len(),
            reg_at(all, name@) == reg_at(all.skip(i as int), name@),
        decreases regs@.len() - i,
    {
        proof {
            assert(all.skip(i as int)[0] == regs@[i as int].deep_view());
            assert(all.skip(i as int).drop_first() =~= all.skip(i + 1));
        }
        if str_eq(regs[i].argo_name.as_str(), name) {
            return Ok(&regs[i]);
        }
        i = i + 1;
    }
    Err(cat3("no claim is called `", name, "`"))
}

/// The claims of these names, in this order.
pub fn find_regs<'a>(regs: &'a Vec<PvcReg>, names: &Vec<String>) -> (r: Result<
    Vec<&'a PvcReg>,
    String,
>)
    ensures
        agrees(r, map_res(names.deep_view(), reg_fn(regs.deep_view()))),
{
    let ghost f = reg_fn(regs.deep_view());
    let ghost all = names.deep_view();
    let mut out: Vec<&'a PvcReg> = Vec::new();
    let mut i: usize = 0;
    proof {
        lemma_map_res_all(all, f);
        assert(out.deep_view() =~= Seq::<PvcRegView>::empty());
    }
    while i < names.len()
        invariant
            f == reg_fn(regs.deep_view()),
            all == names.deep_view(),
            i <= names@.len(),
            map_res(all.take(i as int), f) == Ok::<Seq<PvcRegView>, Seq<char>>(out.deep_view()),
        decreases names@.len() - i,
    {
        proof {
            lemma_map_res_step(all, f, i as int);
            assert(all[i as int] == names@[i as int]@);
        }
        match find_reg(regs, names[i].as_str()) {
            Ok(c) => {
                let ghost before = out.deep_view();
                out.push(c);
                proof {
                    assert(out.deep_view() =~= before.push(c.deep_view()));
                }
            },
            Err(m) => {
                return Err(m);
            },
        }
        i = i + 1;
    }
    proof {
        lemma_map_res_all(all, f);
    }
    Ok(out)
}

pub open spec fn reg_key() -> spec_fn(PvcRegView) -> Seq<char> {
    |c: PvcRegView| c.argo_name
}

/// The claims in the order of their names, one for each name.
pub open spec fn gathered(regs: Seq<PvcRegView>) -> Seq<PvcRegView>
    decreases regs.len(),
{
    if regs.len() == 0 {
        Seq::empty()
    } else {
        let front = gathered(regs.drop_last());
        if reg_at(front, regs.last().argo_name) is Ok {
            front
        } else {
            place(front, regs.last(), reg_key())
        }
    }
}

impl Data for PvcReg {
    fn same(&self, other: &Self) -> (r: bool) {
        self.argo_name.same(&other.argo_name) && self.mount_path.same(&other.mount_path)
            && self.lifecycle == other.lifecycle && self.size.same(&other.size)
            && self.access_modes.same(&other.access_modes) && self.storage_class_name.same(
            &other.storage_class_name,
        ) && self.claim_name.same(&other.claim_name) && self.read_only == other.read_only
    }

    fn dup(&self) -> (r: Self) {
        PvcReg {
            argo_name: self.argo_name.dup(),
            mount_path: self.mount_path.dup(),
            lifecycle: self.lifecycle,
            size: self.size.dup(),
            access_modes: self.access_modes.dup(),
            storage_class_name: self.storage_class_name.dup(),
            claim_name: self.claim_name.dup(),
            read_only: self.read_only,
        }
    }
}

/// The claims in the order of their names, one for each name: of two with one name,
/// the first is kept.
pub fn gather(regs: &Vec<PvcReg>) -> (r: Vec<PvcReg>)
    ensures
        r.deep_view() == gathered(regs.deep_view()),
{
    let ghost all = regs.deep_view();
    let mut out: Vec<PvcReg> = Vec::new();
    let mut i: usize = 0;
    proof {
        assert(all.take(0) =~= Seq::<PvcRegView>::empty());
        assert(out.deep_view() =~= Seq::<PvcRegView>::empty());
    }
    while i < regs.len()
        invariant
            all == regs.deep_view(),
            i <= regs@.len(),
            out.deep_view() == gathered(all.take(i as int)),
        decreases regs@.len() - i,
    {
        let c: &PvcReg = &regs[i];
        proof {
            assert(all.take(i + 1).drop_last() =~= all.take(i as int));
            assert(all.take(i + 1).last() == c.deep_view());
        }
        if find_reg(&out, c.argo_name.as_str()).is_err() {
            let ghost a = out.deep_view();
            let ghost xv = c.deep_view();
            let mut n: usize = 0;
            while n < out.len() && !less(c.argo_name.as_str(), out[n].argo_name.as_str())
                invariant
                    out.deep_view() == a,
                    c.deep_view() == xv,
                    n <= out@.len(),
                    forall|i: int|
                        0 <= i < n ==> !text_less(xv.argo_name, (#[trigger] a[i]).argo_name),
                decreases out@.len() - n,
            {
                proof {
                    assert(a[n as int] == out@[n as int].deep_view());
                }
                n = n + 1;
            }
            proof {
                if n < out@.len() {
                    assert(a[n as int] == out@[n as int].deep_view());
                }
                lemma_place_at(a, xv, reg_key(), n as int);
            }
            out.insert(n, c.dup());
            proof {
                assert(out.deep_view() =~= a.insert(n as int, xv));
            }
        }
        i = i + 1;
    }
    proof {
        assert(all.take(i as int) =~= all);
    }
    out
}

// ---- what a run makes -----------------------------------------------------------------
/// The claim that a run makes for itself, under the name by which its pods mount it.
pub open spec fn claim_template(c: PvcRegView) -> PersistentVolumeClaimView {
    PersistentVolumeClaimView {
        metadata: Some(
            ObjectMetaView { name: pvc_volume(c.argo_name), ..ObjectMetaView::empty() },
        ),
        spec: Some(
            PersistentVolumeClaimSpecView {
                access_modes: c.access_modes,
                resources: Some(
                    VolumeResourceRequirementsView {
                        requests: Map::empty().insert("storage"@, c.size),
                    },
                ),
                storage_class_name: c.storage_class_name,
            },
        ),
    }
}

/// The claims that every run makes for itself, in order.
pub open spec fn claim_templates(regs: Seq<PvcRegView>) -> Seq<PersistentVolumeClaimView>
    decreases regs.len(),
{
    if regs.len() == 0 {
        Seq::empty()
    } else {
        let front = claim_templates(regs.drop_last());
        match regs.last().lifecycle {
            PvcLifecycle::Ephemeral => front.push(claim_template(regs.last())),
            PvcLifecycle::External => front,
        }
    }
}

fn make_claim_template(c: &PvcReg) -> (r: PersistentVolumeClaim)
    ensures
        r.deep_view() == claim_template(c.deep_view()),
{
    let mut meta: ObjectMeta = ObjectMeta::default();
    meta.name = pvc_volume_name(c.argo_name.as_str());
    let mut requests: TextMap<String> = TextMap::new();
    requests.insert("storage".to_owned(), c.size.clone());
    PersistentVolumeClaim {
        metadata: Some(meta),
        spec: Some(
            PersistentVolumeClaimSpec {
                access_modes: c.access_modes.dup(),
                resources: Some(VolumeResourceRequirements { requests }),
                storage_class_name: c.storage_class_name.clone(),
            },
        ),
    }
}

/// The claims that every run makes for itself, in order.
pub fn make_claim_templates(regs: &Vec<PvcReg>) -> (r: Vec<PersistentVolumeClaim>)
    ensures
        r.deep_view() == claim_templates(regs.deep_view()),
{
    let ghost all = regs.deep_view();
    let mut out: Vec<PersistentVolumeClaim> = Vec::new();
    let mut i: usize = 0;
    proof {
        assert(all.take(0) =~= Seq::<PvcRegView>::empty());
        assert(out.deep_view() =~= Seq::<PersistentVolumeClaimView>::empty());
    }
    while i < regs.len()
        invariant
            all == regs.deep_view(),
            i <= regs@.len(),
            out.deep_view() == claim_templates(all.take(i as int)),
        decreases regs@.len() - i,
    {
        proof {
            assert(all.take(i + 1).drop_last() =~= all.take(i as int));
            assert(all.take(i + 1).last() == regs@[i as int].deep_view());
        }
        let ghost before = out.deep_view();
        match regs[i].lifecycle {
            PvcLifecycle::Ephemeral => {
                let t: PersistentVolumeClaim = make_claim_template(&regs[i]);
                let ghost tv = t.deep_view();
                out.push(t);
                proof {
                    assert(out.deep_view() =~= before.push(tv));
                }
            },
            PvcLifecycle::External => {},
        }
        i = i + 1;
    }
    proof {
        assert(all.take(i as int) =~= all);
    }
    out
}

// ---- what a pod mounts ----------------------------------------------------------------
pub open spec fn claim_mount(c: PvcRegView) -> VolumeMountView {
    VolumeMountView {
        name: pvc_volume(c.argo_name),
        mount_path: pvc_mount(c.argo_name),
        read_only: c.read_only,
    }
}

/// Where a pod mounts claims.
pub open spec fn claim_mounts(regs: Seq<PvcRegView>) -> Seq<VolumeMountView> {
    Seq::new(regs.len(), |i: int| claim_mount(regs[i]))
}

pub open spec fn claim_volume(c: PvcRegView) -> VolumeView {
    VolumeView {
        name: pvc_volume(c.argo_name),
        host_path: None,
        empty_dir: None,
        persistent_volume_claim: Some(
            PersistentVolumeClaimVolumeSourceView {
                claim_name: c.claim_name,
                read_only: c.read_only,
            },
        ),
    }
}

/// The volumes of a pod for the claims that are there before. The volume of a claim
/// that the run makes is the claim itself.
pub open spec fn claim_volumes(regs: Seq<PvcRegView>) -> Seq<VolumeView>
    decreases regs.len(),
{
    if regs.len() == 0 {
        Seq::empty()
    } else {
        let front = claim_volumes(regs.drop_last());
        match regs.last().lifecycle {
            PvcLifecycle::Ephemeral => front,
            PvcLifecycle::External => front.push(claim_volume(regs.last())),
        }
    }
}

/// The volumes and the mounts of a pod for the claims it mounts.
pub fn mount_claims(regs: &Vec<&PvcReg>) -> (r: (Vec<Volume>, Vec<VolumeMount>))
    ensures
        r.0.deep_view() == claim_volumes(regs.deep_view()),
        r.1.deep_view() == claim_mounts(regs.deep_view()),
{
    let ghost all = regs.deep_view();
    let ghost want = claim_mounts(all);
    let mut vols: Vec<Volume> = Vec::new();
    let mut mounts: Vec<VolumeMount> = Vec::new();
    let mut i: usize = 0;
    proof {
        assert(all.take(0) =~= Seq::<PvcRegView>::empty());
        assert(vols.deep_view() =~= Seq::<VolumeView>::empty());
        assert(mounts.deep_view() =~= want.take(0));
    }
    while i < regs.len()
        invariant
            all == regs.deep_view(),
            want == claim_mounts(all),
            i <= regs@.len(),
            vols.deep_view() == claim_volumes(all.take(i as int)),
            mounts.deep_view() == want.take(i as int),
        decreases regs@.len() - i,
    {
        let c: &PvcReg = regs[i];
        proof {
            assert(all.take(i + 1).drop_last() =~= all.take(i as int));
            assert(all.take(i + 1).last() == c.deep_view());
        }
        let ghost v0 = vols.deep_view();
        let ghost m0 = mounts.deep_view();
        match c.lifecycle {
            PvcLifecycle::Ephemeral => {},
            PvcLifecycle::External => {
                let v: Volume = Volume {
                    name: pvc_volume_name(c.argo_name.as_str()),
                    host_path: None,
                    empty_dir: None,
                    persistent_volume_claim: Some(
                        PersistentVolumeClaimVolumeSource {
                            claim_name: c.claim_name.clone(),
                            read_only: c.read_only,
                        },
                    ),
                };
                let ghost vv = v.deep_view();
                vols.push(v);
                proof {
                    assert(vols.deep_view() =~= v0.push(vv));
                }
            },
        }
        let m: VolumeMount = VolumeMount {
            name: pvc_volume_name(c.argo_name.as_str()),
            mount_path: pvc_mount_path(c.argo_name.as_str()),
            read_only: c.read_only,
        };
        let ghost mv = m.deep_view();
        mounts.push(m);
        proof {
            assert(mounts.deep_view() =~= m0.push(mv));
            assert(want.take(i + 1) =~= want.take(i as int).push(want[i as int]));
        }
        i = i + 1;
    }
    proof {
        assert(all.take(i as int) =~= all);
        assert(want.take(i as int) =~= want);
    }
    (vols, mounts)
}

// ---- laws -----------------------------------------------------------------------------
proof fn lemma_reg_at(regs: Seq<PvcRegView>, name: Seq<char>)
    ensures
        reg_at(regs, name) matches Ok(c) ==> c.argo_name == name && regs.contains(c),
    decreases regs.len(),
{
    if regs.len() > 0 {
        lemma_reg_at(regs.drop_first(), name);
        if regs[0].argo_name == name {
            assert(regs.contains(regs[0]));
        } else if reg_at(regs, name) is Ok {
            let c = reg_at(regs, name)->Ok_0;
            let t = regs.drop_first();
            let i = choose|i: int| 0 <= i < t.len() && t[i] == c;
            assert(regs[i + 1] == c);
        }
    }
}

/// A claim that is found by its name has that name, and is one of the claims.
pub proof fn law_found_claim(regs: Seq<PvcRegView>, name: Seq<char>)
    ensures
        reg_at(regs, name) matches Ok(c) ==> c.argo_name == name && regs.contains(c),
{
    lemma_reg_at(regs, name);
}

proof fn lemma_reg_missing(regs: Seq<PvcRegView>, name: Seq<char>)
    requires
        reg_at(regs, name) is Err,
    ensures
        forall|i: int| 0 <= i < regs.len() ==> (#[trigger] regs[i]).argo_name != name,
    decreases regs.len(),
{
    if regs.len() > 0 {
        let t = regs.drop_first();
        lemma_reg_missing(t, name);
        assert forall|i: int| 0 <= i < regs.len() implies (#[trigger] regs[i]).argo_name
            != name by {
            if i > 0 {
                assert(t[i - 1] == regs[i]);
            }
        }
    }
}

/// Gathering keeps one claim for each name, makes none up, and puts them in the order
/// of their names.
pub proof fn law_gathered(regs: Seq<PvcRegView>)
    ensures
        in_order_by(gathered(regs), reg_key()),
        forall|i: int, j: int|
            0 <= i < j < gathered(regs).len() ==> (#[trigger] gathered(regs)[i]).argo_name != (
            #[trigger] gathered(regs)[j]).argo_name,
        forall|i: int| 0 <= i < gathered(regs).len() ==> regs.contains(#[trigger] gathered(regs)[i]),
        forall|i: int|
            0 <= i < regs.len() ==> reg_at(
                gathered(regs),
                (#[trigger] regs[i]).argo_name,
            ) is Ok,
    decreases regs.len(),
{
    if regs.len() > 0 {
        let front = regs.drop_last();
        let x = regs.last();
        let f = gathered(front);
        let g = gathered(regs);
        law_gathered(front);
        assert(regs[regs.len() - 1] == x);
        assert forall|y: PvcRegView| front.contains(y) implies regs.contains(y) by {
            let k = choose|k: int| 0 <= k < front.len() && front[k] == y;
            assert(regs[k] == y);
        }
        if reg_at(f, x.argo_name) is Err {
            lemma_reg_missing(f, x.argo_name);
            lemma_place_sorted(f, x, reg_key());
            let n = lemma_place_inserts(f, x, reg_key());
            assert(g == f.insert(n, x));
            assert forall|i: int, j: int| 0 <= i < j < g.len() implies (#[trigger] g[i]).argo_name
                != (#[trigger] g[j]).argo_name by {
                let (a, b) = (
                    if i < n {
                        i
                    } else {
                        i - 1
                    },
                    if j < n {
                        j
                    } else {
                        j - 1
                    },
                );
                if i == n {
                    assert(g[j] == f[b]);
                } else if j == n {
                    assert(g[i] == f[a]);
                } else {
                    assert(g[i] == f[a] && g[j] == f[b]);
                }
            }
            assert forall|i: int| 0 <= i < g.len() implies regs.contains(#[trigger] g[i]) by {
                if i < n {
                    assert(g[i] == f[i]);
                } else if i > n {
                    assert(g[i] == f[i - 1]);
                } else {
                    assert(regs.contains(x));
                }
            }
            assert forall|i: int| 0 <= i < regs.len() implies reg_at(
                g,
                (#[trigger] regs[i]).argo_name,
            ) is Ok by {
                if reg_at(g, regs[i].argo_name) is Err {
                    lemma_reg_missing(g, regs[i].argo_name);
                    if i < front.len() {
                        assert(front[i] == regs[i]);
                        lemma_reg_at(f, regs[i].argo_name);
                        let c = reg_at(f, regs[i].argo_name)->Ok_0;
                        let k = choose|k: int| 0 <= k < f.len() && f[k] == c;
                        assert(g[if k < n {
                            k
                        } else {
                            k + 1
                        }] == c);
                    } else {
                        assert(g[n] == x);
                    }
                }
            }
        } else {
            assert forall|i: int| 0 <= i < regs.len() implies reg_at(
                g,
                (#[trigger] regs[i]).argo_name,
            ) is Ok by {
                if i < front.len() {
                    assert(front[i] == regs[i]);
                }
            }
            assert forall|i: int| 0 <= i < g.len() implies regs.contains(#[trigger] g[i]) by {
                assert(front.contains(f[i]));
            }
        }
    }
}

proof fn lemma_template_of(regs: Seq<PvcRegView>, c: PvcRegView)
    requires
        regs.contains(c),
        c.lifecycle == PvcLifecycle::Ephemeral,
    ensures
        claim_templates(regs).contains(claim_template(c)),
    decreases regs.len(),
{
    let front = regs.drop_last();
    let i = choose|i: int| 0 <= i < regs.len() && regs[i] == c;
    let r = claim_templates(regs);
    if i == regs.len() - 1 {
        assert(r[r.len() - 1] == claim_template(c));
    } else {
        assert(front[i] == c);
        assert(front.contains(c));
        lemma_template_of(front, c);
        let f = claim_templates(front);
        let k = choose|k: int| 0 <= k < f.len() && f[k] == claim_template(c);
        assert(r[k] == claim_template(c));
    }
}

proof fn lemma_volume_of(regs: Seq<PvcRegView>, c: PvcRegView)
    requires
        regs.contains(c),
        c.lifecycle == PvcLifecycle::External,
    ensures
        claim_volumes(regs).contains(claim_volume(c)),
    decreases regs.len(),
{
    let front = regs.drop_last();
    let i = choose|i: int| 0 <= i < regs.len() && regs[i] == c;
    let r = claim_volumes(regs);
    if i == regs.len() - 1 {
        assert(r[r.len() - 1] == claim_volume(c));
    } else {
        assert(front[i] == c);
        assert(front.contains(c));
        lemma_volume_of(front, c);
        let f = claim_volumes(front);
        let k = choose|k: int| 0 <= k < f.len() && f[k] == claim_volume(c);
        assert(r[k] == claim_volume(c));
    }
}

/// No mount is left without a volume: a claim `c` that a pod mounts as one of
/// `used` is mounted under the name of a claim that the run makes, or under that of
/// a volume of the pod for the claim that is there before.
pub proof fn law_mounts_have_volumes(
    all: Seq<PvcRegView>,
    used: Seq<PvcRegView>,
    c: PvcRegView,
)
    requires
        all.contains(c),
        used.contains(c),
    ensures
        claim_mounts(used).contains(claim_mount(c)),
        c.lifecycle == PvcLifecycle::Ephemeral ==> claim_templates(all).contains(claim_template(c))
            && claim_template(c).metadata->0.name == claim_mount(c).name,
        c.lifecycle == PvcLifecycle::External ==> claim_volumes(used).contains(claim_volume(c))
            && claim_volume(c).name == claim_mount(c).name,
{
    let i = choose|i: int| 0 <= i < used.len() && used[i] == c;
    assert(claim_mounts(used)[i] == claim_mount(c));
    match c.lifecycle {
        PvcLifecycle::Ephemeral => lemma_template_of(all, c),
        PvcLifecycle::External => lemma_volume_of(used, c),
    }
}

} // verus!
