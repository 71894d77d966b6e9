//! What a task is passed, as Argo reads it.

use cargo_athena::lower::arg_value;
use cargo_athena::node::{Arg, FanSrc, JsonSrc};

#[test]
fn lit_is_passthrough() {
    assert_eq!(
        arg_value(&Arg::Lit("\"v\"".to_string()), false),
        ("\"v\"".to_string(), None),
    );
    // Steps mode is identical for Lit.
    assert_eq!(
        arg_value(&Arg::Lit("7".to_string()), true),
        ("7".to_string(), None),
    );
}

#[test]
fn ref_dag_emits_dep_dotted_form() {
    let (v, d) = arg_value(&Arg::Ref("ingest".to_string()), false);
    assert_eq!(v, "{{tasks.ingest.outputs.parameters.return}}");
    assert_eq!(d, Some("ingest".to_string()));
}

#[test]
fn ref_steps_drops_dep_uses_steps_scope() {
    let (v, d) = arg_value(&Arg::Ref("ingest".to_string()), true);
    assert_eq!(v, "{{steps.ingest.outputs.parameters.return}}");
    assert_eq!(d, None);
}

#[test]
fn input_no_dep() {
    let (v, d) = arg_value(&Arg::Input("x".to_string()), false);
    assert_eq!(v, "{{inputs.parameters.x}}");
    assert_eq!(d, None);
}

#[test]
fn json_task_uses_bracket_form_and_tojson_fromjson() {
    let (v, d) = arg_value(
        &Arg::Json {
            src: JsonSrc::Task("dep".to_string()),
            path: vec!["a".to_string(), "b".to_string()],
        },
        false,
    );
    assert_eq!(
        v,
        "{{=toJSON(fromJSON(tasks['dep'].outputs.parameters['return'])['a']['b'])}}"
    );
    assert_eq!(d, Some("dep".to_string()));
}

#[test]
fn json_input_no_dep() {
    let (v, d) = arg_value(
        &Arg::Json {
            src: JsonSrc::Input("meta".to_string()),
            path: vec!["id".to_string()],
        },
        false,
    );
    assert_eq!(v, "{{=toJSON(fromJSON(inputs.parameters['meta'])['id'])}}");
    assert_eq!(d, None);
}

#[test]
fn item_bare() {
    let (v, d) = arg_value(&Arg::Item { path: vec![] }, false);
    assert_eq!(v, "{{item}}");
    assert_eq!(d, None);
}

#[test]
fn item_with_field_chain() {
    let (v, d) = arg_value(
        &Arg::Item {
            path: vec!["f".to_string(), "g".to_string()],
        },
        false,
    );
    assert_eq!(v, "{{item.f.g}}");
    assert_eq!(d, None);
}

#[test]
fn fanagg_emits_kind_aware_renorm() {
    let (v, d) = arg_value(&Arg::FanAgg("caps".to_string()), false);
    // The lookup is nil-safe (`?.` + `?? "[]"`) because a skipped
    // empty fan-out has NO `outputs` subtree in scope on Argo v3.6
    // (a plain member chain errors and the tag is passed through
    // unresolved); the `""`/`"null"` normalization covers v3.7/v4,
    // which fill the skipped param with `""`.
    assert_eq!(
        v,
        "{{=let s = tasks['caps'].outputs?.parameters?.['return'] ?? \"[]\"; \
         toJSON(map(fromJSON(\
         s == \"\" || s == \"null\" ? \"[]\" : s), \
         { type(#) == \"string\" ? fromJSON(#) : # }))}}"
    );
    assert_eq!(d, Some("caps".to_string()));
}

#[test]
fn fanagg_steps_no_dep() {
    let (_, d) = arg_value(&Arg::FanAgg("caps".to_string()), true);
    assert_eq!(d, None);
}

#[test]
fn an_outcome_is_a_result() {
    let (v, d) = arg_value(&Arg::RefFallible("flaky".to_string()), false);
    assert_eq!(
        v,
        "{{=tasks['flaky'].status == \"Succeeded\" ? \
         toJSON({\"Ok\": fromJSON(tasks['flaky'].outputs.parameters['return'])}) : \
         toJSON({\"Err\": {\"task\": \"flaky\"} })}}"
    );
    assert_eq!(d, Some("flaky".to_string()));
    let (v, d) = arg_value(&Arg::RefFallible("flaky".to_string()), true);
    assert!(v.starts_with("{{=steps['flaky'].status") && !v.contains("tasks["));
    assert_eq!(d, None);
}

#[test]
fn the_outcome_of_a_fan_is_all_or_nothing() {
    let fan = |list: FanSrc| Arg::FanAggFallible { task: "caps".to_string(), list };
    let (v, d) = arg_value(&fan(FanSrc::Task("names".to_string())), false);
    assert_eq!(
        v,
        "{{=let s = tasks['caps'].outputs?.parameters?.['return'] ?? \"[]\"; \
         let l = tasks['names'].outputs?.parameters?.['return'] ?? \"[]\"; \
         let r = fromJSON(s == \"\" || s == \"null\" ? \"[]\" : s); \
         len(r) == len(fromJSON(l == \"\" || l == \"null\" ? \"[]\" : l)) ? \
         toJSON({\"Ok\": map(r, { type(#) == \"string\" ? fromJSON(#) : # })}) : \
         toJSON({\"Err\": {\"task\": \"caps\"} })}}"
    );
    assert_eq!(d, Some("caps".to_string()));
    let (v, d) = arg_value(&fan(FanSrc::Input("xs".to_string())), true);
    assert!(v.contains("let l = inputs.parameters['xs'] ?? \"[]\";") && v.contains("steps['caps']"));
    assert_eq!(d, None);
    // The expression ends where its tag does.
    assert_eq!(v.find("}}"), Some(v.len() - 2));
}
