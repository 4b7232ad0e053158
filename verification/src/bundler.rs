//! The context bundler: assembles the render context of a task out of the
//! account's secrets and auth accounts, the session's completed tasks, and
//! the system values, then renders the task's `variables` template against
//! it and the `input` template against the rendered variables.

use vstd::prelude::*;

verus! {

use crate::action::RunStatus;
use crate::action::Task;
use crate::cache::FlowSessionCache;
use crate::cache::cache_get;
use crate::json::Json;
use crate::json::JsonV;
use crate::json::obj_view;
use crate::json::lemma_obj_view;
use crate::templater::TemplateError;
use crate::templater::TemplateErrorV;
use crate::templater::Templater;
use crate::templater::Validations;
use crate::templater::render_json;
use crate::templater::tmpl_lookup;
use crate::text::chars_to_string;

// ---------- decimal texts for identifiers and clocks ----------

/// The decimal digits of a natural number.
pub open spec fn dec_of(n: nat) -> Seq<char>
    decreases n,
{
    if n < 10 {
        seq![dec_digit(n)]
    } else {
        dec_of(n / 10).push(dec_digit(n % 10))
    }
}

pub open spec fn dec_digit(n: nat) -> char {
    if n == 0 {
        '0'
    } else if n == 1 {
        '1'
    } else if n == 2 {
        '2'
    } else if n == 3 {
        '3'
    } else if n == 4 {
        '4'
    } else if n == 5 {
        '5'
    } else if n == 6 {
        '6'
    } else if n == 7 {
        '7'
    } else if n == 8 {
        '8'
    } else {
        '9'
    }
}

/// The decimal text of an integer, a `-` ahead of a negative one.
pub open spec fn dec_int_of(n: int) -> Seq<char> {
    if n < 0 {
        seq!['-'] + dec_of((-n) as nat)
    } else {
        dec_of(n as nat)
    }
}

fn dec_chars(n: u128) -> (r: Vec<char>)
    ensures
        r@ == dec_of(n as nat),
    decreases n,
{
    let d: u128 = n % 10;
    let c: char = if d == 0 {
        '0'
    } else if d == 1 {
        '1'
    } else if d == 2 {
        '2'
    } else if d == 3 {
        '3'
    } else if d == 4 {
        '4'
    } else if d == 5 {
        '5'
    } else if d == 6 {
        '6'
    } else if d == 7 {
        '7'
    } else if d == 8 {
        '8'
    } else {
        '9'
    };
    if n < 10 {
        let mut r: Vec<char> = Vec::new();
        r.push(c);
        proof {
            assert(r@ =~= seq![dec_digit(n as nat)]);
        }
        r
    } else {
        let mut r = dec_chars(n / 10);
        r.push(c);
        r
    }
}

/// A JSON number holding the decimal text of an unsigned identifier.
pub fn num_of_u128(n: u128) -> (r: Json)
    ensures
        r@ == JsonV::Num(dec_of(n as nat)),
{
    Json::Num(chars_to_string(&dec_chars(n)))
}

/// A JSON number holding the decimal text of a clock value.
pub fn num_of_i64(n: i64) -> (r: Json)
    ensures
        r@ == JsonV::Num(dec_int_of(n as int)),
{
    let wide: i128 = n as i128;
    if wide < 0 {
        let mag: u128 = (-wide) as u128;
        let mut cs: Vec<char> = Vec::new();
        cs.push('-');
        let ds = dec_chars(mag);
        crate::text::append_chars(&mut cs, &ds);
        proof {
            assert(cs@ =~= seq!['-'] + dec_of(mag as nat));
        }
        Json::Num(chars_to_string(&cs))
    } else {
        Json::Num(chars_to_string(&dec_chars(wide as u128)))
    }
}

// ---------- a task, serialized into the render context ----------

/// The JSON form a prior task takes inside the `actions` namespace.
pub open spec fn task_json(t: crate::action::TaskV) -> JsonV {
    JsonV::Obj(
        seq![
            ("task_id"@, JsonV::Num(dec_of(t.task_id as nat))),
            ("account_id"@, JsonV::Num(dec_of(t.account_id as nat))),
            ("flow_session_id"@, JsonV::Num(dec_of(t.flow_session_id as nat))),
            ("action_id"@, JsonV::Str(t.action_id)),
            ("action_label"@, JsonV::Str(t.action_label)),
            ("plugin_id"@, JsonV::Str(t.plugin_id)),
            ("type"@, JsonV::Str(crate::action::action_type_str(t.action_type))),
            ("processing_order"@, JsonV::Num(dec_of(t.processing_order as nat))),
            ("task_status"@, JsonV::Str(crate::action::run_status_str(t.task_status))),
            (
                "trigger_session_status"@,
                JsonV::Str(crate::action::run_status_str(t.trigger_session_status)),
            ),
            (
                "flow_session_status"@,
                JsonV::Str(crate::action::run_status_str(t.flow_session_status)),
            ),
            ("stage"@, JsonV::Str(crate::action::stage_str(t.stage))),
            (
                "config"@,
                JsonV::Obj(
                    seq![("variables"@, t.config.variables), ("input"@, t.config.input)],
                ),
            ),
            (
                "result"@,
                match t.result {
                    Some(v) => v,
                    None => JsonV::Null,
                },
            ),
            ("started_at"@, JsonV::Num(dec_int_of(t.started_at as int))),
            (
                "ended_at"@,
                match t.ended_at {
                    Some(e) => JsonV::Num(dec_int_of(e as int)),
                    None => JsonV::Null,
                },
            ),
        ],
    )
}

/// A prior task serialized for the render context.
pub fn task_to_json(t: &Task) -> (r: Json)
    ensures
        r@ == task_json(t@),
{
    let config_entries: Vec<(String, Json)> = vec![
        ("variables".to_owned(), t.config.variables.clone()),
        ("input".to_owned(), t.config.input.clone()),
    ];
    let ghost cev = config_entries@;
    let config = Json::Obj(config_entries);
    let ghost configv = config@;
    let result_value = match &t.result {
        Some(v) => v.clone(),
        None => Json::Null,
    };
    let entries: Vec<(String, Json)> = vec![
        ("task_id".to_owned(), num_of_u128(t.task_id)),
        ("account_id".to_owned(), num_of_u128(t.account_id)),
        ("flow_session_id".to_owned(), num_of_u128(t.flow_session_id)),
        ("action_id".to_owned(), Json::Str(t.action_id.clone())),
        ("action_label".to_owned(), Json::Str(t.action_label.clone())),
        ("plugin_id".to_owned(), Json::Str(t.plugin_id.clone())),
        ("type".to_owned(), Json::Str(t.action_type.as_str().to_owned())),
        ("processing_order".to_owned(), num_of_u128(t.processing_order as u128)),
        ("task_status".to_owned(), Json::Str(t.task_status.as_str().to_owned())),
        (
            "trigger_session_status".to_owned(),
            Json::Str(t.trigger_session_status.as_str().to_owned()),
        ),
        ("flow_session_status".to_owned(), Json::Str(t.flow_session_status.as_str().to_owned())),
        ("stage".to_owned(), Json::Str(t.stage.as_str().to_owned())),
        ("config".to_owned(), config),
        ("result".to_owned(), result_value),
        ("started_at".to_owned(), num_of_i64(t.started_at)),
        (
            "ended_at".to_owned(),
            match t.ended_at {
                Some(e) => num_of_i64(e),
                None => Json::Null,
            },
        ),
    ];
    let ghost es = entries@;
    let r = Json::Obj(entries);
    proof {
        lemma_obj_view(cev);
        lemma_obj_view(es);
        assert(configv->Obj_0 =~= task_json(t@)->Obj_0[12].1->Obj_0);
        assert(configv =~= task_json(t@)->Obj_0[12].1);
        assert(es[12].1@ == configv);
        assert(r@->Obj_0 =~= task_json(t@)->Obj_0);
        assert(r@ =~= task_json(t@));
    }
    r
}

// ---------- the render context ----------

/// The `actions` namespace: each completed task of the session, keyed by its
/// action id, in stored order.
pub open spec fn actions_ctx(ts: Seq<Task>) -> Seq<(Seq<char>, JsonV)>
    decreases ts,
{
    if ts.len() == 0 {
        Seq::empty()
    } else {
        let pre = actions_ctx(ts.drop_last());
        if ts.last().task_status == RunStatus::Completed {
            pre.push((ts.last().action_id@, task_json(ts.last()@)))
        } else {
            pre
        }
    }
}

/// The views of a sequence of tasks, in stored order.
pub open spec fn tasks_views(ts: Seq<Task>) -> Seq<crate::action::TaskV>
    decreases ts,
{
    if ts.len() == 0 {
        Seq::empty()
    } else {
        tasks_views(ts.drop_last()).push(ts.last()@)
    }
}

/// The views of the completed tasks among them, in stored order.
pub open spec fn completed_views(ts: Seq<Task>) -> Seq<crate::action::TaskV>
    decreases ts,
{
    if ts.len() == 0 {
        Seq::empty()
    } else {
        let pre = completed_views(ts.drop_last());
        if ts.last().task_status == RunStatus::Completed {
            pre.push(ts.last()@)
        } else {
            pre
        }
    }
}

/// The completed tasks of the flow session, straight from the cache, as
/// copies of the cached tasks, in stored order; an unknown session has none.
#[verifier::loop_isolation(false)]
pub fn fetch_completed_cached_tasks(cache: &FlowSessionCache, flow_session_id: u128) -> (r: Vec<
    Task,
>)
    ensures
        match cache_get(cache@, flow_session_id) {
            Some(d) => tasks_views(r@) == completed_views(d.tasks@) && actions_ctx(r@)
                == actions_ctx(d.tasks@) && forall|i: int|
                0 <= i < r@.len() ==> (#[trigger] r@[i]).task_status == RunStatus::Completed,
            None => r@.len() == 0,
        },
{
    let mut r: Vec<Task> = Vec::new();
    match cache.get(flow_session_id) {
        None => r,
        Some(d) => {
            let mut i: usize = 0;
            proof {
                assert(d.tasks@.subrange(0, 0) =~= Seq::<Task>::empty());
                assert(actions_ctx(r@) =~= actions_ctx(d.tasks@.subrange(0, 0)));
                assert(tasks_views(r@) =~= completed_views(d.tasks@.subrange(0, 0)));
            }
            while i < d.tasks.len()
                invariant
                    i <= d.tasks@.len(),
                    actions_ctx(r@) == actions_ctx(d.tasks@.subrange(0, i as int)),
                    tasks_views(r@) == completed_views(d.tasks@.subrange(0, i as int)),
                    forall|k: int|
                        0 <= k < r@.len() ==> (#[trigger] r@[k]).task_status
                            == RunStatus::Completed,
                decreases d.tasks@.len() - i,
            {
                proof {
                    let t = d.tasks@.subrange(0, i as int + 1);
                    assert(t.drop_last() =~= d.tasks@.subrange(0, i as int));
                    assert(t.last() == d.tasks@[i as int]);
                }
                if matches!(d.tasks[i].task_status, RunStatus::Completed) {
                    let ghost r0 = r@;
                    let copy = d.tasks[i].clone();
                    r.push(copy);
                    proof {
                        assert(r@.drop_last() =~= r0);
                        assert(r@.last()@ == d.tasks@[i as int]@);
                        assert(actions_ctx(r@) == actions_ctx(r@.drop_last()).push(
                            (r@.last().action_id@, task_json(r@.last()@)),
                        ));
                        assert(tasks_views(r@) == tasks_views(r@.drop_last()).push(r@.last()@));
                    }
                }
                i = i + 1;
            }
            proof {
                assert(d.tasks@.subrange(0, i as int) =~= d.tasks@);
            }
            r
        },
    }
}

/// The render context: `accounts`, `secrets`, `actions` (completed prior
/// tasks by action id) and `system`, in that order.
pub open spec fn context_json(
    accounts: Seq<(Seq<char>, JsonV)>,
    secrets: Seq<(Seq<char>, JsonV)>,
    actions: Seq<(Seq<char>, JsonV)>,
    system: JsonV,
) -> JsonV {
    JsonV::Obj(
        seq![
            ("accounts"@, JsonV::Obj(accounts)),
            ("secrets"@, JsonV::Obj(secrets)),
            ("actions"@, JsonV::Obj(actions)),
            ("system"@, system),
        ],
    )
}

/// Assembles the render context from its already-fetched parts.
#[verifier::loop_isolation(false)]
pub fn build_render_context(
    accounts: Vec<(String, Json)>,
    secrets: Vec<(String, Json)>,
    completed_tasks: &Vec<Task>,
    system: Json,
) -> (r: Json)
    requires
        forall|i: int|
            0 <= i < completed_tasks@.len() ==> (#[trigger] completed_tasks@[i]).task_status
                == RunStatus::Completed,
    ensures
        r@ == context_json(
            obj_view(accounts@),
            obj_view(secrets@),
            actions_ctx(completed_tasks@),
            system@,
        ),
{
    let mut actions: Vec<(String, Json)> = Vec::new();
    let mut i: usize = 0;
    proof {
        assert(completed_tasks@.subrange(0, 0) =~= Seq::<Task>::empty());
        assert(obj_view(actions@) =~= actions_ctx(completed_tasks@.subrange(0, 0)));
    }
    while i < completed_tasks.len()
        invariant
            i <= completed_tasks@.len(),
            obj_view(actions@) == actions_ctx(completed_tasks@.subrange(0, i as int)),
        decreases completed_tasks@.len() - i,
    {
        proof {
            let t = completed_tasks@.subrange(0, i as int + 1);
            assert(t.drop_last() =~= completed_tasks@.subrange(0, i as int));
            assert(t.last() == completed_tasks@[i as int]);
        }
        let key = completed_tasks[i].action_id.clone();
        let tj = task_to_json(&completed_tasks[i]);
        let ghost a0 = actions@;
        actions.push((key, tj));
        proof {
            assert(actions@.drop_last() =~= a0);
            assert(obj_view(actions@) == obj_view(actions@.drop_last()).push(
                (actions@.last().0@, actions@.last().1@),
            ));
        }
        i = i + 1;
    }
    proof {
        assert(completed_tasks@.subrange(0, i as int) =~= completed_tasks@);
    }
    let ghost avs = actions@;
    let ghost accs = accounts@;
    let ghost secs = secrets@;
    let ghost sysv = system@;
    let entries: Vec<(String, Json)> = vec![
        ("accounts".to_owned(), Json::Obj(accounts)),
        ("secrets".to_owned(), Json::Obj(secrets)),
        ("actions".to_owned(), Json::Obj(actions)),
        ("system".to_owned(), system),
    ];
    let ghost es = entries@;
    let r = Json::Obj(entries);
    proof {
        lemma_obj_view(es);
        assert(r@->Obj_0 =~= context_json(
            obj_view(accounts@),
            obj_view(secrets@),
            actions_ctx(completed_tasks@),
            system@,
        )->Obj_0);
        assert(r@ =~= context_json(
            obj_view(accounts@),
            obj_view(secrets@),
            actions_ctx(completed_tasks@),
            system@,
        ));
    }
    r
}

// ---------- rendering the variables and inputs ----------

/// An empty JSON object.
pub fn empty_object() -> (r: Json)
    ensures
        r@ == JsonV::Obj(Seq::empty()),
{
    let r = Json::Obj(Vec::new());
    proof {
        assert(r@->Obj_0 =~= Seq::<(Seq<char>, JsonV)>::empty());
        assert(r@ =~= JsonV::Obj(Seq::empty()));
    }
    r
}

/// The rendered `variables` of a task: its `variables` template rendered
/// against the assembled context, with no declared validations; a task
/// without one renders to an empty object.
pub fn bundle_cached_variables(variables_config: Option<&Json>, context: &Json) -> (r: Result<
    Json,
    TemplateError,
>)
    ensures
        match variables_config {
            None => (match r {
                Ok(v) => v@ == JsonV::Obj(Seq::empty()),
                Err(_) => false,
            }),
            Some(t) => match render_json(
                t@,
                context@,
                Seq::<(Seq<char>, crate::templater::ValidationFieldType)>::empty(),
            ) {
                Ok(v) => (match r {
                    Ok(rv) => rv@ == v,
                    Err(_) => false,
                }),
                Err(e) => (match r {
                    Err(te) => te@ == e,
                    Ok(_) => false,
                }),
            },
        },
{
    match variables_config {
        None => Ok(empty_object()),
        Some(t) => {
            let mut templater = Templater::new();
            templater.add_template("task_variables_definition", t.clone());
            let validations = Validations::new();
            proof {
                assert(tmpl_lookup(templater@, "task_variables_definition"@) == Some(t@));
            }
            templater.render("task_variables_definition", context, &validations)
        },
    }
}

/// The rendered `input` of a task: its `input` template rendered against a
/// context holding only the rendered variables under `variables`; a task
/// without one renders to an empty object.
pub fn bundle_inputs(rendered_variables: Json, inputs: Option<&Json>) -> (r: Result<
    Json,
    TemplateError,
>)
    ensures
        match inputs {
            None => (match r {
                Ok(v) => v@ == JsonV::Obj(Seq::empty()),
                Err(_) => false,
            }),
            Some(t) => match render_json(
                t@,
                JsonV::Obj(seq![("variables"@, rendered_variables@)]),
                Seq::<(Seq<char>, crate::templater::ValidationFieldType)>::empty(),
            ) {
                Ok(v) => (match r {
                    Ok(rv) => rv@ == v,
                    Err(_) => false,
                }),
                Err(e) => (match r {
                    Err(te) => te@ == e,
                    Ok(_) => false,
                }),
            },
        },
{
    match inputs {
        None => Ok(empty_object()),
        Some(t) => {
            let ghost rv = rendered_variables@;
            let mut ctx_entries: Vec<(String, Json)> = Vec::new();
            ctx_entries.push(("variables".to_owned(), rendered_variables));
            let ghost ce = ctx_entries@;
            let ctx = Json::Obj(ctx_entries);
            proof {
                crate::json::lemma_obj_view(ce);
                assert(ctx@->Obj_0 =~= seq![("variables"@, rv)]);
                assert(ctx@ =~= JsonV::Obj(seq![("variables"@, rv)]));
            }
            let mut templater = Templater::new();
            templater.add_template("task_inputs_definition", t.clone());
            let validations = Validations::new();
            proof {
                assert(tmpl_lookup(templater@, "task_inputs_definition"@) == Some(t@));
            }
            templater.render("task_inputs_definition", &ctx, &validations)
        },
    }
}

/// Variables rendered against the context, then inputs rendered against the
/// variables: the whole bundle of one task, from already-fetched parts.
pub fn bundle_context_from_parts(
    accounts: Vec<(String, Json)>,
    secrets: Vec<(String, Json)>,
    completed_tasks: &Vec<Task>,
    system: Json,
    variables_config: Option<&Json>,
    inputs_config: Option<&Json>,
) -> (r: Result<Json, TemplateError>)
    requires
        forall|i: int|
            0 <= i < completed_tasks@.len() ==> (#[trigger] completed_tasks@[i]).task_status
                == RunStatus::Completed,
    ensures
        ({
            let ctx = context_json(
                obj_view(accounts@),
                obj_view(secrets@),
                actions_ctx(completed_tasks@),
                system@,
            );
            let vres = match variables_config {
                None => Ok::<JsonV, TemplateErrorV>(JsonV::Obj(Seq::empty())),
                Some(t) => render_json(
                    t@,
                    ctx,
                    Seq::<(Seq<char>, crate::templater::ValidationFieldType)>::empty(),
                ),
            };
            match vres {
                Err(e) => (match r {
                    Err(te) => te@ == e,
                    Ok(_) => false,
                }),
                Ok(vars) => match inputs_config {
                    None => (match r {
                        Ok(v) => v@ == JsonV::Obj(Seq::empty()),
                        Err(_) => false,
                    }),
                    Some(t) => match render_json(
                        t@,
                        JsonV::Obj(seq![("variables"@, vars)]),
                        Seq::<(Seq<char>, crate::templater::ValidationFieldType)>::empty(),
                    ) {
                        Ok(v) => (match r {
                            Ok(rv) => rv@ == v,
                            Err(_) => false,
                        }),
                        Err(e) => (match r {
                            Err(te) => te@ == e,
                            Ok(_) => false,
                        }),
                    },
                },
            }
        }),
{
    let context = build_render_context(accounts, secrets, completed_tasks, system);
    let rendered_variables = match bundle_cached_variables(variables_config, &context) {
        Ok(v) => v,
        Err(e) => {
            return Err(e);
        },
    };
    bundle_inputs(rendered_variables, inputs_config)
}


/// The whole bundle of a task straight from the cache: the session's
/// completed tasks are read out of the flow-session cache, the context is
/// assembled around them, and the task's own `variables` and `input`
/// templates are rendered in turn.
pub fn bundle_tasks_cached_context(
    cache: &FlowSessionCache,
    task: &Task,
    accounts: Vec<(String, Json)>,
    secrets: Vec<(String, Json)>,
    system: Json,
) -> (r: Result<Json, TemplateError>)
    ensures
        ({
            let acts = match cache_get(cache@, task.flow_session_id) {
                Some(d) => actions_ctx(d.tasks@),
                None => Seq::<(Seq<char>, JsonV)>::empty(),
            };
            let ctx = context_json(obj_view(accounts@), obj_view(secrets@), acts, system@);
            match render_json(
                task.config.variables@,
                ctx,
                Seq::<(Seq<char>, crate::templater::ValidationFieldType)>::empty(),
            ) {
                Err(e) => (match r {
                    Err(te) => te@ == e,
                    Ok(_) => false,
                }),
                Ok(vars) => match render_json(
                    task.config.input@,
                    JsonV::Obj(seq![("variables"@, vars)]),
                    Seq::<(Seq<char>, crate::templater::ValidationFieldType)>::empty(),
                ) {
                    Ok(v) => (match r {
                        Ok(rv) => rv@ == v,
                        Err(_) => false,
                    }),
                    Err(e) => (match r {
                        Err(te) => te@ == e,
                        Ok(_) => false,
                    }),
                },
            }
        }),
{
    let completed = fetch_completed_cached_tasks(cache, task.flow_session_id);
    proof {
        if cache_get(cache@, task.flow_session_id) is None {
            assert(completed@ =~= Seq::<Task>::empty());
            assert(actions_ctx(completed@) =~= Seq::<(Seq<char>, JsonV)>::empty());
        }
    }
    bundle_context_from_parts(
        accounts,
        secrets,
        &completed,
        system,
        Some(&task.config.variables),
        Some(&task.config.input),
    )
}


} // verus!
