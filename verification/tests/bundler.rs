use flowcore::action::{ActionType, RunStatus, Stage, Task, TaskConfig};
use flowcore::bundler::{
    bundle_cached_variables, bundle_context_from_parts, bundle_inputs, build_render_context,
    fetch_completed_cached_tasks, task_to_json,
};
use flowcore::cache::{FlowSessionCache, FlowSessionData};
use flowcore::json::Json;
use flowcore::walker::{neighbors, next_action};
use flowcore::action::{Action, Edge};

fn obj(entries: Vec<(&str, Json)>) -> Json {
    Json::Obj(entries.into_iter().map(|(k, v)| (k.to_string(), v)).collect())
}

fn s(text: &str) -> Json {
    Json::Str(text.to_string())
}

fn n(text: &str) -> Json {
    Json::Num(text.to_string())
}

fn completed_task(action_id: &str, result: Json) -> Task {
    Task {
        task_id: 1,
        account_id: 2,
        flow_session_id: 3,
        action_id: action_id.to_string(),
        action_label: "label".to_string(),
        plugin_id: "plugin".to_string(),
        action_type: ActionType::Action,
        processing_order: 0,
        task_status: RunStatus::Completed,
        trigger_session_status: RunStatus::Completed,
        flow_session_status: RunStatus::Completed,
        stage: Stage::Testing,
        config: TaskConfig { variables: Json::Obj(vec![]), input: Json::Obj(vec![]) },
        result: Some(result),
        started_at: 50,
        ended_at: Some(60),
    }
}

#[test]
fn variables_template_reads_prior_task_results() {
    let prior = completed_task("fetch", obj(vec![("value", n("7"))]));
    let context = build_render_context(
        vec![],
        vec![("api_key".to_string(), s("SECRET-REDACTED"))],
        &vec![prior],
        obj(vec![("time", n("123"))]),
    );

    let variables_template = obj(vec![
        ("got", s("{{actions.fetch.result.value}}")),
        ("key", s("{{secrets.api_key}}")),
        ("when", s("{{system.time}}")),
    ]);
    let rendered = bundle_cached_variables(Some(&variables_template), &context).unwrap();
    assert_eq!(
        rendered,
        obj(vec![
            ("got", n("7")),
            ("key", s("SECRET-REDACTED")),
            ("when", n("123")),
        ])
    );
}

#[test]
fn inputs_render_against_rendered_variables_only() {
    let rendered_variables = obj(vec![("name", s("World"))]);
    let inputs_template = obj(vec![("greeting", s("Hello {{variables.name}}"))]);
    let result = bundle_inputs(rendered_variables, Some(&inputs_template)).unwrap();
    assert_eq!(result, obj(vec![("greeting", s("Hello World"))]));
}

#[test]
fn missing_templates_bundle_to_empty_objects() {
    let context = build_render_context(vec![], vec![], &vec![], Json::Null);
    assert_eq!(bundle_cached_variables(None, &context).unwrap(), Json::Obj(vec![]));
    assert_eq!(bundle_inputs(Json::Obj(vec![]), None).unwrap(), Json::Obj(vec![]));
}

#[test]
fn bundle_from_parts_chains_variables_into_inputs() {
    let prior = completed_task("step", s("payload"));
    let variables_template = obj(vec![("v", s("{{actions.step.result}}"))]);
    let inputs_template = obj(vec![("echo", s("{{variables.v}}"))]);

    let result = bundle_context_from_parts(
        vec![],
        vec![],
        &vec![prior],
        Json::Null,
        Some(&variables_template),
        Some(&inputs_template),
    )
    .unwrap();
    assert_eq!(result, obj(vec![("echo", s("payload"))]));
}

#[test]
fn only_completed_tasks_enter_the_context() {
    let mut cache = FlowSessionCache::new();
    let sid: u128 = 3;
    let mut pending = completed_task("late", Json::Null);
    pending.task_status = RunStatus::Running;
    pending.result = None;
    let done = completed_task("done", n("1"));
    cache.set(
        sid,
        FlowSessionData {
            workflow: None,
            tasks: vec![pending, done],
            flow_session_id: sid,
            workflow_id: 4,
            workflow_version_id: None,
        },
    );

    let fetched = fetch_completed_cached_tasks(&cache, sid);
    assert_eq!(fetched.len(), 1);
    assert_eq!(fetched[0].action_id, "done");

    let unknown = fetch_completed_cached_tasks(&cache, 999);
    assert!(unknown.is_empty());
}

#[test]
fn task_serialization_exposes_result_and_status() {
    let task = completed_task("a1", obj(vec![("ok", Json::Bool(true))]));
    let serialized = task_to_json(&task);
    match &serialized {
        Json::Obj(entries) => {
            let find = |key: &str| {
                entries
                    .iter()
                    .find(|(k, _)| k == key)
                    .map(|(_, v)| v.clone())
                    .unwrap()
            };
            assert_eq!(find("action_id"), s("a1"));
            assert_eq!(find("task_status"), s("completed"));
            assert_eq!(find("result"), obj(vec![("ok", Json::Bool(true))]));
            assert_eq!(find("processing_order"), n("0"));
        }
        other => panic!("expected an object, got {:?}", other),
    }
}

#[test]
fn walker_picks_first_unvisited_neighbor_in_edge_order() {
    let actions = vec![
        Action {
            action_id: "a".to_string(),
            label: "a".to_string(),
            action_type: ActionType::Trigger,
            plugin_id: "p".to_string(),
            variables: Json::Null,
            input: Json::Null,
        },
        Action {
            action_id: "b".to_string(),
            label: "b".to_string(),
            action_type: ActionType::Action,
            plugin_id: "p".to_string(),
            variables: Json::Null,
            input: Json::Null,
        },
        Action {
            action_id: "c".to_string(),
            label: "c".to_string(),
            action_type: ActionType::Action,
            plugin_id: "p".to_string(),
            variables: Json::Null,
            input: Json::Null,
        },
    ];
    let edges = vec![
        Edge { source: "a".to_string(), target: "b".to_string() },
        Edge { source: "a".to_string(), target: "c".to_string() },
    ];

    let ns = neighbors(&edges, &"a".to_string());
    assert_eq!(ns, vec!["b".to_string(), "c".to_string()]);

    let ran_b = vec![completed_task("b", Json::Null)];
    let picked = next_action(&actions, &edges, &ran_b, &"a".to_string()).unwrap();
    assert_eq!(picked.action_id, "c");

    let ran_both = vec![completed_task("b", Json::Null), completed_task("c", Json::Null)];
    assert!(next_action(&actions, &edges, &ran_both, &"a".to_string()).is_none());
}

#[test]
fn task_serialization_carries_ended_at() {
    let mut task = completed_task("a1", Json::Null);
    task.ended_at = Some(60);
    let serialized = task_to_json(&task);
    match &serialized {
        Json::Obj(entries) => {
            let find = |key: &str| {
                entries
                    .iter()
                    .find(|(k, _)| k == key)
                    .map(|(_, v)| v.clone())
                    .unwrap()
            };
            assert_eq!(find("ended_at"), n("60"));
            assert_eq!(find("started_at"), n("50"));
        }
        other => panic!("expected an object, got {:?}", other),
    }

    let mut open_task = completed_task("a2", Json::Null);
    open_task.ended_at = None;
    match task_to_json(&open_task) {
        Json::Obj(entries) => {
            let ended = entries.iter().find(|(k, _)| k == "ended_at").unwrap();
            assert_eq!(ended.1, Json::Null);
        }
        other => panic!("expected an object, got {:?}", other),
    }
}
