//! Actions, tasks and their status words: the data a flow session is made of.

use vstd::prelude::*;

verus! {

use crate::json::Json;
use crate::json::JsonV;

/// What kind of node an action is in the workflow graph.
#[derive(Debug, Clone, Copy, PartialEq, Eq, Structural)]
pub enum ActionType {
    Trigger,
    Action,
    Loop,
    Decision,
    Filter,
    Response,
    Input,
    Output,
}

/// The wire word of each action type.
pub open spec fn action_type_str(t: ActionType) -> Seq<char> {
    match t {
        ActionType::Input => "input"@,
        ActionType::Trigger => "trigger"@,
        ActionType::Response => "response"@,
        ActionType::Action => "action"@,
        ActionType::Loop => "loop"@,
        ActionType::Decision => "decision"@,
        ActionType::Filter => "filter"@,
        ActionType::Output => "output"@,
    }
}

impl ActionType {
    /// The lowercase wire word of this action type.
    pub fn as_str(&self) -> (r: &str)
        ensures
            r@ == action_type_str(*self),
    {
        match self {
            ActionType::Input => "input",
            ActionType::Trigger => "trigger",
            ActionType::Response => "response",
            ActionType::Action => "action",
            ActionType::Loop => "loop",
            ActionType::Decision => "decision",
            ActionType::Filter => "filter",
            ActionType::Output => "output",
        }
    }
}

/// The lifecycle state of a task, a trigger session or a flow session.
#[derive(Debug, Clone, Copy, PartialEq, Eq, Structural)]
pub enum RunStatus {
    Pending,
    Running,
    Completed,
    Failed,
}

/// The wire word of each status.
pub open spec fn run_status_str(s: RunStatus) -> Seq<char> {
    match s {
        RunStatus::Pending => "pending"@,
        RunStatus::Running => "running"@,
        RunStatus::Completed => "completed"@,
        RunStatus::Failed => "failed"@,
    }
}

impl RunStatus {
    /// The lowercase wire word of this status.
    pub fn as_str(&self) -> (r: &str)
        ensures
            r@ == run_status_str(*self),
    {
        match self {
            RunStatus::Pending => "pending",
            RunStatus::Running => "running",
            RunStatus::Completed => "completed",
            RunStatus::Failed => "failed",
        }
    }
}

/// Whether a run is done with a published workflow or a draft.
#[derive(Debug, Clone, Copy, PartialEq, Eq, Structural)]
pub enum Stage {
    Production,
    Testing,
}

pub open spec fn stage_str(s: Stage) -> Seq<char> {
    match s {
        Stage::Production => "production"@,
        Stage::Testing => "testing"@,
    }
}

impl Stage {
    /// The lowercase wire word of this stage.
    pub fn as_str(&self) -> (r: &str)
        ensures
            r@ == stage_str(*self),
    {
        match self {
            Stage::Production => "production",
            Stage::Testing => "testing",
        }
    }

    /// The stage a workflow's published flag puts a run in.
    pub fn from_published(published: bool) -> (r: Stage)
        ensures
            r == (if published {
                Stage::Production
            } else {
                Stage::Testing
            }),
    {
        if published {
            Stage::Production
        } else {
            Stage::Testing
        }
    }
}

/// One node of the workflow graph: what to run and the two template payloads
/// that feed it.
#[derive(Debug)]
pub struct Action {
    pub action_id: String,
    pub label: String,
    pub action_type: ActionType,
    pub plugin_id: String,
    pub variables: Json,
    pub input: Json,
}

/// The shape of an action.
#[verifier::ext_equal]
pub ghost struct ActionV {
    pub action_id: Seq<char>,
    pub label: Seq<char>,
    pub action_type: ActionType,
    pub plugin_id: Seq<char>,
    pub variables: JsonV,
    pub input: JsonV,
}

impl View for Action {
    type V = ActionV;

    open spec fn view(&self) -> ActionV {
        ActionV {
            action_id: self.action_id@,
            label: self.label@,
            action_type: self.action_type,
            plugin_id: self.plugin_id@,
            variables: self.variables@,
            input: self.input@,
        }
    }
}

impl Clone for Action {
    /// A copy with the same view.
    fn clone(&self) -> (r: Action)
        ensures
            r@ == self@,
    {
        Action {
            action_id: self.action_id.clone(),
            label: self.label.clone(),
            action_type: self.action_type,
            plugin_id: self.plugin_id.clone(),
            variables: self.variables.clone(),
            input: self.input.clone(),
        }
    }
}

/// One directed edge of the workflow graph.
#[derive(Debug, Clone)]
pub struct Edge {
    pub source: String,
    pub target: String,
}

impl View for Edge {
    type V = (Seq<char>, Seq<char>);

    open spec fn view(&self) -> (Seq<char>, Seq<char>) {
        (self.source@, self.target@)
    }
}

/// A workflow definition, immutable for the length of a flow session.
#[derive(Debug, Clone)]
pub struct Workflow {
    pub workflow_id: u128,
    pub flow_version_id: u128,
    pub account_id: u128,
    pub published: bool,
    pub actions: Vec<Action>,
    pub edges: Vec<Edge>,
}

/// The unrendered template pair a task carries from its action.
#[derive(Debug)]
pub struct TaskConfig {
    pub variables: Json,
    pub input: Json,
}

/// One concrete execution of an action within a flow session.
#[derive(Debug)]
pub struct Task {
    pub task_id: u128,
    pub account_id: u128,
    pub flow_session_id: u128,
    pub action_id: String,
    pub action_label: String,
    pub plugin_id: String,
    pub action_type: ActionType,
    pub processing_order: u64,
    pub task_status: RunStatus,
    pub trigger_session_status: RunStatus,
    pub flow_session_status: RunStatus,
    pub stage: Stage,
    pub config: TaskConfig,
    pub result: Option<Json>,
    pub started_at: i64,
    pub ended_at: Option<i64>,
}

/// The shape of a task's template pair.
#[verifier::ext_equal]
pub ghost struct TaskConfigV {
    pub variables: JsonV,
    pub input: JsonV,
}

impl View for TaskConfig {
    type V = TaskConfigV;

    open spec fn view(&self) -> TaskConfigV {
        TaskConfigV { variables: self.variables@, input: self.input@ }
    }
}

impl Clone for TaskConfig {
    /// A copy with the same view.
    fn clone(&self) -> (r: TaskConfig)
        ensures
            r@ == self@,
    {
        TaskConfig { variables: self.variables.clone(), input: self.input.clone() }
    }
}

/// The shape of a task.
#[verifier::ext_equal]
pub ghost struct TaskV {
    pub task_id: u128,
    pub account_id: u128,
    pub flow_session_id: u128,
    pub action_id: Seq<char>,
    pub action_label: Seq<char>,
    pub plugin_id: Seq<char>,
    pub action_type: ActionType,
    pub processing_order: u64,
    pub task_status: RunStatus,
    pub trigger_session_status: RunStatus,
    pub flow_session_status: RunStatus,
    pub stage: Stage,
    pub config: TaskConfigV,
    pub result: Option<JsonV>,
    pub started_at: i64,
    pub ended_at: Option<i64>,
}

impl View for Task {
    type V = TaskV;

    open spec fn view(&self) -> TaskV {
        TaskV {
            task_id: self.task_id,
            account_id: self.account_id,
            flow_session_id: self.flow_session_id,
            action_id: self.action_id@,
            action_label: self.action_label@,
            plugin_id: self.plugin_id@,
            action_type: self.action_type,
            processing_order: self.processing_order,
            task_status: self.task_status,
            trigger_session_status: self.trigger_session_status,
            flow_session_status: self.flow_session_status,
            stage: self.stage,
            config: self.config@,
            result: match self.result {
                Some(r) => Some(r@),
                None => None,
            },
            started_at: self.started_at,
            ended_at: self.ended_at,
        }
    }
}

impl Clone for Task {
    /// A copy with the same view.
    fn clone(&self) -> (r: Task)
        ensures
            r@ == self@,
    {
        Task {
            task_id: self.task_id,
            account_id: self.account_id,
            flow_session_id: self.flow_session_id,
            action_id: self.action_id.clone(),
            action_label: self.action_label.clone(),
            plugin_id: self.plugin_id.clone(),
            action_type: self.action_type,
            processing_order: self.processing_order,
            task_status: self.task_status,
            trigger_session_status: self.trigger_session_status,
            flow_session_status: self.flow_session_status,
            stage: self.stage,
            config: self.config.clone(),
            result: match &self.result {
                Some(r) => Some(r.clone()),
                None => None,
            },
            started_at: self.started_at,
            ended_at: self.ended_at,
        }
    }
}

impl Task {
    /// A task's result is absent exactly while it is pending or running.
    pub open spec fn result_matches_status(&self) -> bool {
        self@.result is None <==> (self.task_status == RunStatus::Pending || self.task_status
            == RunStatus::Running)
    }
}

/// What the processor asks the store to create: a task about to run.
#[derive(Debug, Clone)]
pub struct CreateTaskInput {
    pub account_id: u128,
    pub processing_order: u64,
    pub task_status: RunStatus,
    pub flow_id: u128,
    pub flow_version_id: u128,
    pub action_label: String,
    pub trigger_id: String,
    pub trigger_session_id: u128,
    pub trigger_session_status: RunStatus,
    pub flow_session_id: u128,
    pub flow_session_status: RunStatus,
    pub action_id: String,
    pub action_type: ActionType,
    pub plugin_id: String,
    pub stage: Stage,
    pub config: TaskConfig,
    pub started_at: i64,
}

} // verus!
