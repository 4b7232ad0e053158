use flowcore::action::{
    Action, ActionType, CreateTaskInput, Edge, RunStatus, Stage, Task, Workflow,
};
use flowcore::cache::{FlowSessionCache, FlowSessionData};
use flowcore::json::Json;
use flowcore::processor::{
    get_trigger_node, on_task_failure, on_task_success, worker_cleanup, Dispatcher, SessionRun,
};

fn action(id: &str, kind: ActionType) -> Action {
    Action {
        action_id: id.to_string(),
        label: format!("label {}", id),
        action_type: kind,
        plugin_id: format!("plugin {}", id),
        variables: Json::Obj(vec![]),
        input: Json::Obj(vec![]),
    }
}

fn two_action_workflow() -> Workflow {
    Workflow {
        workflow_id: 10,
        flow_version_id: 11,
        account_id: 12,
        published: true,
        actions: vec![action("a0", ActionType::Trigger), action("a1", ActionType::Action)],
        edges: vec![Edge { source: "a0".to_string(), target: "a1".to_string() }],
    }
}

fn task_from_input(input: &CreateTaskInput, task_id: u128) -> Task {
    Task {
        task_id,
        account_id: input.account_id,
        flow_session_id: input.flow_session_id,
        action_id: input.action_id.clone(),
        action_label: input.action_label.clone(),
        plugin_id: input.plugin_id.clone(),
        action_type: input.action_type,
        processing_order: input.processing_order,
        task_status: input.task_status,
        trigger_session_status: input.trigger_session_status,
        flow_session_status: input.flow_session_status,
        stage: input.stage,
        config: input.config.clone(),
        result: None,
        started_at: input.started_at,
        ended_at: None,
    }
}

fn seed_session(cache: &mut FlowSessionCache, workflow: &Workflow, sid: u128) {
    cache.set(
        sid,
        FlowSessionData {
            workflow: Some(workflow.clone()),
            tasks: vec![],
            flow_session_id: sid,
            workflow_id: workflow.workflow_id,
            workflow_version_id: Some(workflow.flow_version_id),
        },
    );
}

#[test]
fn duplicate_session_is_discarded() {
    let mut dispatcher = Dispatcher::new(4);
    assert!(dispatcher.accept(77));
    assert!(!dispatcher.accept(77));
    assert!(dispatcher.accept(78));
}

#[test]
fn concurrency_bound_is_enforced() {
    let mut dispatcher = Dispatcher::new(2);
    assert!(dispatcher.try_acquire());
    assert!(dispatcher.try_acquire());
    assert!(!dispatcher.try_acquire());
    dispatcher.release();
    assert!(dispatcher.try_acquire());
}

#[test]
fn two_action_workflow_completes_in_order() {
    let workflow = two_action_workflow();
    let sid: u128 = 500;
    let mut cache = FlowSessionCache::new();
    seed_session(&mut cache, &workflow, sid);

    let mut run = SessionRun::new(workflow.clone(), sid, 501);
    let trigger = get_trigger_node(&run.workflow.actions).unwrap().clone();
    let first_input = run.make_next_task(&trigger, 1000);
    assert_eq!(first_input.processing_order, 0);
    assert_eq!(first_input.action_id, "a0");
    assert_eq!(first_input.task_status, RunStatus::Running);
    assert_eq!(first_input.stage, Stage::Production);

    let first_task = task_from_input(&first_input, 600);
    assert!(cache.add_task(sid, first_task.clone()));

    let next = on_task_success(&mut run, &mut cache, &first_task, Json::Str("ok".into()), 1001);
    let second_input = next.expect("the walker should select a1");
    assert_eq!(second_input.processing_order, 1);
    assert_eq!(second_input.action_id, "a1");

    let second_task = task_from_input(&second_input, 601);
    assert!(cache.add_task(sid, second_task.clone()));

    let done = on_task_success(&mut run, &mut cache, &second_task, Json::Null, 1002);
    assert!(done.is_none(), "no action follows a1");

    let session = cache.get(sid).unwrap();
    assert_eq!(session.tasks.len(), 2);
    assert!(session
        .tasks
        .iter()
        .all(|t| t.task_status == RunStatus::Completed));
    assert!(session.tasks[0].processing_order < session.tasks[1].processing_order);
}

#[test]
fn failing_plugin_fails_the_task_and_stops() {
    let workflow = two_action_workflow();
    let sid: u128 = 700;
    let mut cache = FlowSessionCache::new();
    seed_session(&mut cache, &workflow, sid);

    let mut run = SessionRun::new(workflow.clone(), sid, 701);
    let trigger = get_trigger_node(&run.workflow.actions).unwrap().clone();
    let input = run.make_next_task(&trigger, 1000);
    let task = task_from_input(&input, 800);
    assert!(cache.add_task(sid, task.clone()));

    let error = Json::Obj(vec![("reason".to_string(), Json::Str("x".to_string()))]);
    on_task_failure(&run, &mut cache, &task, error.clone(), 1001);

    let session = cache.get(sid).unwrap();
    assert_eq!(session.tasks.len(), 1);
    assert_eq!(session.tasks[0].task_status, RunStatus::Failed);
    assert_eq!(session.tasks[0].result, Some(error));
    assert_eq!(session.tasks[0].ended_at, Some(1001));
}

#[test]
fn cleanup_leaves_no_trace_of_the_session() {
    let workflow = two_action_workflow();
    let sid: u128 = 900;
    let mut dispatcher = Dispatcher::new(1);
    let mut cache = FlowSessionCache::new();
    assert!(dispatcher.accept(sid));
    assert!(dispatcher.try_acquire());
    seed_session(&mut cache, &workflow, sid);
    assert!(cache.get(sid).is_some());

    worker_cleanup(&mut dispatcher, &mut cache, sid);

    assert!(cache.get(sid).is_none());
    assert!(dispatcher.accept(sid), "a finished session can be admitted again");
    assert!(dispatcher.try_acquire(), "the permit came back");
}

#[test]
fn trigger_node_is_the_first_trigger_action() {
    let workflow = two_action_workflow();
    let trigger = get_trigger_node(&workflow.actions).unwrap();
    assert_eq!(trigger.action_id, "a0");

    let no_trigger = vec![action("b0", ActionType::Action)];
    assert!(get_trigger_node(&no_trigger).is_none());
}

#[test]
fn status_words_match_the_wire_format() {
    assert_eq!(ActionType::Trigger.as_str(), "trigger");
    assert_eq!(ActionType::Decision.as_str(), "decision");
    assert_eq!(RunStatus::Completed.as_str(), "completed");
    assert_eq!(RunStatus::Failed.as_str(), "failed");
    assert_eq!(Stage::Production.as_str(), "production");
    assert_eq!(Stage::Testing.as_str(), "testing");
}

#[test]
fn session_seeding_is_idempotent() {
    let workflow = two_action_workflow();
    let mut cache = FlowSessionCache::new();
    let sid: u128 = 42;
    let first = FlowSessionData {
        workflow: Some(workflow.clone()),
        tasks: vec![],
        flow_session_id: sid,
        workflow_id: workflow.workflow_id,
        workflow_version_id: None,
    };
    let mut second = first.clone();
    second.workflow_id = 999;

    assert!(cache.set_if_absent(sid, first));
    assert!(!cache.set_if_absent(sid, second));
    assert_eq!(cache.get(sid).unwrap().workflow_id, workflow.workflow_id);
}

#[test]
fn supplied_trigger_task_consumes_order_zero() {
    let workflow = two_action_workflow();
    let sid: u128 = 43;
    let mut cache = FlowSessionCache::new();
    seed_session(&mut cache, &workflow, sid);

    let mut run = SessionRun::new(workflow.clone(), sid, 44);
    let trigger = get_trigger_node(&workflow.actions).unwrap().clone();
    let supplied = {
        let mut probe = SessionRun::new(workflow.clone(), sid, 44);
        probe.make_next_task(&trigger, 1000)
    };
    assert_eq!(supplied.processing_order, 0);

    run.adopt_trigger_task(&supplied);
    let task = task_from_input(&supplied, 650);
    assert!(cache.add_task(sid, task.clone()));

    let next = on_task_success(&mut run, &mut cache, &task, Json::Null, 1001).unwrap();
    assert_eq!(next.processing_order, 1);
}
