//! Running one container here is running it as its pod does: what is known of a
//! template, which values it takes, and how the container runtime is called.

use crate::api::{ArtifactView, TemplateView, VolumeView};
use crate::emulate::{
    below_work, binds, checked, endpoint_of, fits, is_int_type, is_list_type, is_text_type,
    kind_for_type, optional, passed, run_line, run_refusal, settings, squeezed, unborrowed, Kind,
    Values,
};
use crate::json::JsonView;
use crate::run_meta::{
    artifact_named, host_paths_in, meta_of, normal, refs_in, ArtifactRefView, ContainerRunMetaView,
    ParamRefView, S3RefView,
};
use crate::text::{has_prefix, has_suffix, is_char, is_space, occurs, trim_by};
use vstd::prelude::*;

verus! {

// ---- the call of the runtime -----------------------------------------------------------
proof fn lemma_binds(paths: Seq<Seq<char>>, i: int)
    requires
        0 <= i < paths.len(),
    ensures
        binds(paths).len() == 2 * paths.len(),
        binds(paths)[2 * i] == "-v"@,
        binds(paths)[2 * i + 1] == paths[i] + ":"@ + paths[i],
    decreases paths.len(),
{
    let f = paths.drop_last();
    reveal_with_fuel(binds, 2);
    if f.len() > 0 {
        lemma_binds(f, 0);
    }
    if i < f.len() {
        lemma_binds(f, i);
        assert(f[i] == paths[i]);
    }
}

proof fn lemma_settings(values: Seq<(Seq<char>, Seq<char>)>, i: int)
    requires
        0 <= i < values.len(),
    ensures
        settings(values).len() == 2 * values.len(),
        settings(values)[2 * i] == "-e"@,
        settings(values)[2 * i + 1] == values[i].0 + "="@ + values[i].1,
    decreases values.len(),
{
    let f = values.drop_last();
    reveal_with_fuel(settings, 2);
    if f.len() > 0 {
        lemma_settings(f, 0);
    }
    if i < f.len() {
        lemma_settings(f, i);
        assert(f[i] == values[i]);
    }
}

/// How many elements of a call stand before the image.
pub open spec fn before_image(
    meta: ContainerRunMetaView,
    values: Seq<(Seq<char>, Seq<char>)>,
) -> int {
    6 + 2 * meta.host_paths.len() as int + 2 * values.len() as int
}

/// The runtime starts what the pod starts: the entrypoint, with what follows the
/// image behind it, is the template's command followed by all of its arguments, in
/// order and nothing else, and the image is the template's. A template without a
/// command cannot be run, and any other can.
pub proof fn law_the_command_of_the_pod_is_run(
    meta: ContainerRunMetaView,
    work: Seq<char>,
    values: Seq<(Seq<char>, Seq<char>)>,
)
    ensures
        run_line(meta, work, values) is Ok <==> meta.command.len() > 0,
        run_line(meta, work, values) matches Ok(line) ==> {
            let k = before_image(meta, values);
            &&& 0 <= k < line.len()
            &&& line[0] == "run"@
            &&& line[k - 2] == "--entrypoint"@
            &&& line[k] == meta.image
            &&& seq![line[k - 1]] + line.skip(k + 1) == meta.command + meta.args
            &&& line.skip(line.len() - meta.args.len()) == meta.args
        },
{
    if meta.command.len() > 0 {
        let line = run_line(meta, work, values)->Ok_0;
        let k = before_image(meta, values);
        if meta.host_paths.len() > 0 {
            lemma_binds(meta.host_paths, 0);
        }
        if values.len() > 0 {
            lemma_settings(values, 0);
        }
        let head = seq!["run"@, "--rm"@, "-v"@, work + ":"@ + meta.work_dir] + binds(
            meta.host_paths,
        ) + settings(values) + seq!["--entrypoint"@, meta.command[0], meta.image];
        assert(head.len() == k + 1);
        assert(line =~= head + meta.command.drop_first() + meta.args);
        assert(line[k - 1] == head[k - 1]);
        assert(line[k] == head[k]);
        assert(line[k - 2] == head[k - 2]);
        assert(line.skip(k + 1) =~= meta.command.drop_first() + meta.args);
        assert(seq![line[k - 1]] + line.skip(k + 1) =~= meta.command + meta.args);
        assert(line.skip(line.len() - meta.args.len()) =~= meta.args);
    }
}

/// The runtime gets the directory that stands for the scratch directory, every
/// host path at its own place, and every value under its name; the container is
/// removed when it ends.
pub proof fn law_the_container_gets_its_files_and_values(
    meta: ContainerRunMetaView,
    work: Seq<char>,
    values: Seq<(Seq<char>, Seq<char>)>,
    i: int,
    j: int,
)
    ensures
        run_line(meta, work, values) matches Ok(line) ==> {
            &&& line[1] == "--rm"@
            &&& line[2] == "-v"@
            &&& line[3] == work + ":"@ + meta.work_dir
            &&& 0 <= i < meta.host_paths.len() ==> line[4 + 2 * i] == "-v"@ && line[5 + 2 * i]
                == meta.host_paths[i] + ":"@ + meta.host_paths[i]
            &&& 0 <= j < values.len() ==> {
                let at = 4 + 2 * meta.host_paths.len() as int + 2 * j;
                line[at] == "-e"@ && line[at + 1] == values[j].0 + "="@ + values[j].1
            }
        },
{
    if meta.command.len() > 0 {
        let line = run_line(meta, work, values)->Ok_0;
        let head = seq!["run"@, "--rm"@, "-v"@, work + ":"@ + meta.work_dir];
        let b = binds(meta.host_paths);
        let s = settings(values);
        let rest = seq!["--entrypoint"@, meta.command[0], meta.image] + meta.command.drop_first()
            + meta.args;
        assert(line =~= head + b + s + rest);
        if meta.host_paths.len() > 0 {
            lemma_binds(meta.host_paths, 0);
        }
        if 0 <= i < meta.host_paths.len() {
            lemma_binds(meta.host_paths, i);
            assert(line[4 + 2 * i] == b[2 * i]);
            assert(line[5 + 2 * i] == b[2 * i + 1]);
        }
        if 0 <= j < values.len() {
            lemma_settings(values, j);
            let at = 4 + 2 * meta.host_paths.len() as int + 2 * j;
            assert(line[at] == s[2 * j]);
            assert(line[at + 1] == s[2 * j + 1]);
        }
    }
}

/// Only a container is run here; a workflow has no pod.
pub proof fn law_only_containers_are_run(t: TemplateView, types: Seq<Seq<char>>)
    ensures
        run_refusal(meta_of(t, types)) is None <==> t.container is Some,
{
    reveal_strlit("container");
    reveal_strlit("workflow");
    reveal_strlit("other");
    assert("container"@.len() == 9 && "workflow"@.len() == 8 && "other"@.len() == 5);
}

/// A file of the container is found below the directory that stands for its
/// scratch directory, by the rest of its path.
pub proof fn law_files_are_found_below_the_work_directory(
    work_dir: Seq<char>,
    rest: Seq<char>,
)
    requires
        rest.len() == 0 || rest[0] != '/',
    ensures
        below_work(work_dir + seq!['/'] + rest, work_dir) == rest,
{
    let path = work_dir + seq!['/'] + rest;
    assert(path.subrange(0, work_dir.len() as int) =~= work_dir);
    let u = seq!['/'] + rest;
    assert(path.skip(work_dir.len() as int) =~= u);
    assert(path.subrange(work_dir.len() as int, path.len() as int) =~= u);
    crate::text::lemma_lead(u, is_char('/'), 1);
    assert(u.skip(1) =~= rest);
    assert(u.subrange(1, u.len() as int) =~= rest);
}

// ---- what is known of a template ----------------------------------------------------
/// What is known of a container is what its template says: its image, its command
/// and its arguments as they are, its parameters by name and in order, and the
/// host paths of its volumes.
pub proof fn law_templates_are_described(t: TemplateView, types: Seq<Seq<char>>, i: int)
    ensures
        ({
            let m = meta_of(t, types);
            &&& m.name == t.name
            &&& t.container matches Some(c) ==> m.kind == "container"@ && m.image == c.image
                && m.command == c.command && m.args == c.args
            &&& t.container is None && t.dag is Some ==> m.kind == "workflow"@
            &&& t.inputs matches Some(g) ==> {
                &&& m.params.len() == g.parameters.len()
                &&& 0 <= i < g.parameters.len() ==> m.params[i].name == g.parameters[i].name && (i
                    < types.len() ==> m.params[i].ty == normal(types[i]))
            }
            &&& t.inputs is None ==> m.params.len() == 0
            &&& 0 <= i < t.volumes.len() ==> (t.volumes[i].host_path matches Some(h)
                ==> m.host_paths.contains(h.path))
        }),
{
    if 0 <= i < t.volumes.len() && t.volumes[i].host_path is Some {
        lemma_host_path(t.volumes, i);
    }
}

proof fn lemma_host_path(vs: Seq<VolumeView>, i: int)
    requires
        0 <= i < vs.len(),
        vs[i].host_path is Some,
    ensures
        host_paths_in(vs).contains(vs[i].host_path->0.path),
    decreases vs.len(),
{
    let f = vs.drop_last();
    let r = host_paths_in(vs);
    if i < f.len() {
        lemma_host_path(f, i);
        assert(f[i] == vs[i]);
        let k = choose|k: int| 0 <= k < host_paths_in(f).len() && host_paths_in(f)[k]
            == vs[i].host_path->0.path;
        assert(r[k] == vs[i].host_path->0.path);
    } else {
        assert(r[r.len() - 1] == vs[i].host_path->0.path);
    }
}

/// Whether `r` says where the artifact `a` is stored and where it lies in the
/// container.
pub open spec fn points_to(r: ArtifactRefView, a: ArtifactView) -> bool {
    &&& r.path == a.path
    &&& a.s3 matches Some(s) && r.s3.key == s.key && r.s3.bucket == s.bucket && r.s3.endpoint
        == s.endpoint && r.s3.region == s.region && r.s3.insecure == s.insecure
}

proof fn lemma_refs(arts: Seq<ArtifactView>, ports: bool, i: int)
    requires
        0 <= i < arts.len(),
        arts[i].s3 is Some,
        !ports || arts[i].name != "athena-dist"@,
    ensures
        exists|k: int| 0 <= k < refs_in(arts, ports).len() && points_to(
            #[trigger] refs_in(arts, ports)[k],
            arts[i],
        ),
    decreases arts.len(),
{
    let f = arts.drop_last();
    let r = refs_in(arts, ports);
    if i < f.len() {
        lemma_refs(f, ports, i);
        assert(f[i] == arts[i]);
        let k = choose|k: int| 0 <= k < refs_in(f, ports).len() && points_to(
            #[trigger] refs_in(f, ports)[k],
            arts[i],
        );
        assert(r[k] == refs_in(f, ports)[k]);
    } else {
        assert(points_to(r[r.len() - 1], arts[i]));
    }
}

/// Every stored artifact that a container reads, other than its binary, and every
/// one that it writes is known with its place in the store and in the container.
pub proof fn law_artifacts_are_described(t: TemplateView, types: Seq<Seq<char>>, i: int)
    ensures
        ({
            let m = meta_of(t, types);
            let ins = t.inputs->0.artifacts;
            let outs = t.outputs->0.artifacts;
            &&& t.inputs is Some && 0 <= i < ins.len() && ins[i].s3 is Some && ins[i].name
                != "athena-dist"@ ==> exists|k: int|
                0 <= k < m.input_artifacts.len() && points_to(
                    #[trigger] m.input_artifacts[k],
                    ins[i],
                )
            &&& t.outputs is Some && 0 <= i < outs.len() && outs[i].s3 is Some ==> exists|k: int|
                0 <= k < m.output_artifacts.len() && points_to(
                    #[trigger] m.output_artifacts[k],
                    outs[i],
                )
            &&& t.inputs is Some && ins.len() > 0 && ins[0].name == "athena-dist"@ && ins[0].s3
                is Some ==> (m.binary_artifact matches Some(b) && points_to(b, ins[0]))
        }),
{
    if let Some(g) = t.inputs {
        if 0 <= i < g.artifacts.len() && g.artifacts[i].s3 is Some && g.artifacts[i].name
            != "athena-dist"@ {
            lemma_refs(g.artifacts, true, i);
            let r = refs_in(g.artifacts, true);
            let k = choose|k: int| 0 <= k < r.len() && points_to(
                #[trigger] r[k],
                g.artifacts[i],
            );
            assert(points_to(meta_of(t, types).input_artifacts[k], g.artifacts[i]));
        }
        if g.artifacts.len() > 0 && g.artifacts[0].name == "athena-dist"@ {
            assert(artifact_named(g.artifacts, "athena-dist"@) == Some(g.artifacts[0]));
        }
    }
    if let Some(g) = t.outputs {
        if 0 <= i < g.artifacts.len() && g.artifacts[i].s3 is Some {
            lemma_refs(g.artifacts, false, i);
            let r = refs_in(g.artifacts, false);
            let k = choose|k: int| 0 <= k < r.len() && points_to(
                #[trigger] r[k],
                g.artifacts[i],
            );
            assert(points_to(meta_of(t, types).output_artifacts[k], g.artifacts[i]));
        }
    }
}

// ---- values -------------------------------------------------------------------------
/// A value fits a type exactly where it is of the kind that the type is read from:
/// a string for text, a whole number for an integer, any number for a fraction, a
/// truth value for `bool`, and a list for a list.
pub proof fn law_values_fit_their_types(ty: Seq<char>, v: JsonView)
    requires
        v.proper(),
    ensures
        ({
            let t = unborrowed(ty);
            match kind_for_type(ty) {
                Some(k) => {
                    &&& t == "String"@ || t == "str"@ || t == "char"@ || t == "PathBuf"@ ==> (fits(
                        k,
                        v,
                    ) <==> v.string)
                    &&& t == "i64"@ || t == "u64"@ || t == "i32"@ || t == "u32"@ || t == "usize"@
                        || t == "u8"@ ==> (fits(k, v) <==> v.number && !v.float)
                    &&& t == "f64"@ || t == "f32"@ ==> (fits(k, v) <==> v.number)
                    &&& t == "bool"@ ==> (fits(k, v) <==> v.boolean)
                    &&& k == Kind::Arr ==> (fits(k, v) <==> v.array)
                    &&& k == Kind::Arr <==> has_prefix(t, "Vec<"@) || has_prefix(t, "VecDeque<"@)
                        || has_prefix(t, "["@) || has_prefix(t, "&["@)
                },
                None => t != "String"@ && t != "bool"@ && t != "i64"@ && t != "f64"@ && !has_prefix(
                    t,
                    "Vec<"@,
                ),
            }
        }),
{
    let t = unborrowed(ty);
    lemma_type_words(t);
}

proof fn lemma_type_words(t: Seq<char>)
    ensures
        is_text_type(t) || is_int_type(t) || t == "f32"@ || t == "f64"@ || t == "bool"@
            ==> !is_list_type(t),
        is_int_type(t) ==> !is_text_type(t),
        t == "f32"@ || t == "f64"@ || t == "bool"@ ==> !is_int_type(t) && !is_text_type(t),
        t == "bool"@ ==> t != "f32"@ && t != "f64"@,
{
    reveal_strlit("String");
    reveal_strlit("str");
    reveal_strlit("char");
    reveal_strlit("PathBuf");
    reveal_strlit("Path");
    reveal_strlit("Box<str>");
    reveal_strlit("i8");
    reveal_strlit("i16");
    reveal_strlit("i32");
    reveal_strlit("i64");
    reveal_strlit("i128");
    reveal_strlit("isize");
    reveal_strlit("u8");
    reveal_strlit("u16");
    reveal_strlit("u32");
    reveal_strlit("u64");
    reveal_strlit("u128");
    reveal_strlit("usize");
    reveal_strlit("f32");
    reveal_strlit("f64");
    reveal_strlit("bool");
    reveal_strlit("Vec<");
    reveal_strlit("VecDeque<");
    reveal_strlit("[");
    reveal_strlit("&[");
    assert(has_prefix(t, "Vec<"@) ==> t.subrange(0, 4)[0] == 'V');
    assert(has_prefix(t, "VecDeque<"@) ==> t.subrange(0, 9)[0] == 'V');
    assert(has_prefix(t, "["@) ==> t.subrange(0, 1)[0] == '[');
    assert(has_prefix(t, "&["@) ==> t.subrange(0, 2)[0] == '&');
}

proof fn lemma_passed(params: Seq<ParamRefView>, vals: Values, i: int)
    requires
        0 <= i < params.len(),
        vals.dom().contains(params[i].name),
    ensures
        passed(params, vals).contains((params[i].name, vals[params[i].name].text)),
    decreases params.len(),
{
    let f = params.drop_last();
    let r = passed(params, vals);
    let x = (params[i].name, vals[params[i].name].text);
    if i < f.len() {
        lemma_passed(f, vals, i);
        assert(f[i] == params[i]);
        let k = choose|k: int| 0 <= k < passed(f, vals).len() && passed(f, vals)[k] == x;
        assert(r[k] == x);
    } else {
        assert(r[r.len() - 1] == x);
    }
}

proof fn lemma_only_given(params: Seq<ParamRefView>, vals: Values, k: int)
    requires
        0 <= k < passed(params, vals).len(),
    ensures
        vals.dom().contains(passed(params, vals)[k].0),
        passed(params, vals)[k].1 == vals[passed(params, vals)[k].0].text,
    decreases params.len(),
{
    let f = params.drop_last();
    if k < passed(f, vals).len() {
        lemma_only_given(f, vals, k);
    }
}

/// What is accepted is passed: every parameter that is given, under its name and
/// with the text of its value, and nothing that is not given.
pub proof fn law_accepted_values_are_passed(
    meta: ContainerRunMetaView,
    vals: Values,
    i: int,
    k: int,
)
    ensures
        checked(meta, vals) matches Ok(vs) ==> {
            &&& 0 <= i < meta.params.len() && vals.dom().contains(meta.params[i].name)
                ==> vs.contains((meta.params[i].name, vals[meta.params[i].name].text))
            &&& 0 <= k < vs.len() ==> vals.dom().contains(vs[k].0) && vs[k].1 == vals[vs[k].0].text
        },
{
    if 0 <= i < meta.params.len() && vals.dom().contains(meta.params[i].name) {
        lemma_passed(meta.params, vals, i);
    }
    if 0 <= k < passed(meta.params, vals).len() {
        lemma_only_given(meta.params, vals, k);
    }
}

/// Only a parameter whose type is an option may be left out.
pub proof fn law_what_may_be_left_out(p: ParamRefView)
    ensures
        optional(p) <==> {
            let t = squeezed(p.ty);
            has_prefix(t, "Option<"@) && has_suffix(t, ">"@) && t.len() >= 8
        },
{
    reveal_strlit("Option<");
    reveal_strlit(">");
    let t = squeezed(p.ty);
    if has_prefix(t, "Option<"@) {
        let u = t.subrange(7, t.len() as int);
        if has_suffix(t, ">"@) && t.len() >= 8 {
            assert(t.subrange(t.len() - 1, t.len() as int) =~= ">"@);
            assert(u.subrange(u.len() - 1, u.len() as int) =~= ">"@);
        }
        if has_suffix(u, ">"@) {
            assert(u.subrange(u.len() - 1, u.len() as int) =~= ">"@);
            assert(t.subrange(t.len() - 1, t.len() as int) =~= ">"@);
        }
    }
}

/// An object store is spoken to at its address: as it is where it names a scheme,
/// without encryption only where that is configured. That of Amazon is found by the
/// region.
pub proof fn law_addresses_of_stores(s: S3RefView)
    ensures
        ({
            let e = trim_by(s.endpoint, is_space());
            &&& e.len() == 0 ==> endpoint_of(s) is None
            &&& has_suffix(e, "amazonaws.com"@) ==> endpoint_of(s) is None
            &&& e.len() > 0 && !has_suffix(e, "amazonaws.com"@) ==> (endpoint_of(s) matches Some(u)
                && if occurs(e, "://"@) {
                u == e
            } else if s.insecure {
                u == "http://"@ + e
            } else {
                u == "https://"@ + e
            })
        }),
{
}

/// The scratch directory of a container is where its volume is mounted, and its
/// result where its output is read from.
pub proof fn law_where_a_container_works(t: TemplateView, types: Seq<Seq<char>>)
    requires
        t.container matches Some(c) && c.volume_mounts.len() > 0 && c.volume_mounts[0].name
            == "athena-work"@,
        t.outputs matches Some(o) && o.parameters.len() > 0 && o.parameters[0].name == "return"@ && (
        o.parameters[0].value_from matches Some(v) && v.path.len() > 0),
    ensures
        meta_of(t, types).work_dir == t.container->0.volume_mounts[0].mount_path,
        meta_of(t, types).result_path == Some(t.outputs->0.parameters[0].value_from->0.path),
{
    let o = t.outputs->0;
    assert(crate::run_meta::param_named(o.parameters, "return"@) == Some(o.parameters[0]));
    let c = t.container->0;
    assert(crate::run_meta::mounted_at(c.volume_mounts, "athena-work"@) == Some(
        c.volume_mounts[0].mount_path,
    ));
}

} // verus!
