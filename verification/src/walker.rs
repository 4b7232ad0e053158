//! The graph walker: given the workflow's edges and the tasks a session has
//! already run, pick the next action after a just-completed one.

use vstd::prelude::*;

verus! {

use crate::action::Action;
use crate::action::ActionV;
use crate::action::Edge;
use crate::action::Task;
use crate::text::str_eq_chars;
use crate::text::str_to_chars;

/// The views of the edges.
pub open spec fn edges_view(s: Seq<Edge>) -> Seq<(Seq<char>, Seq<char>)>
    decreases s,
{
    if s.len() == 0 {
        Seq::empty()
    } else {
        edges_view(s.drop_last()).push((s.last().source@, s.last().target@))
    }
}

/// The views of the actions.
pub open spec fn actions_view(s: Seq<Action>) -> Seq<ActionV>
    decreases s,
{
    if s.len() == 0 {
        Seq::empty()
    } else {
        actions_view(s.drop_last()).push(s.last()@)
    }
}

/// The targets of the edges leaving `src`, in edge order.
pub open spec fn neighbors_of(es: Seq<(Seq<char>, Seq<char>)>, src: Seq<char>) -> Seq<Seq<char>>
    decreases es,
{
    if es.len() == 0 {
        Seq::empty()
    } else {
        let pre = neighbors_of(es.drop_last(), src);
        if es.last().0 == src {
            pre.push(es.last().1)
        } else {
            pre
        }
    }
}

/// The first action of that id, if any.
pub open spec fn lookup_action(actions: Seq<ActionV>, id: Seq<char>) -> Option<ActionV>
    decreases actions,
{
    if actions.len() == 0 {
        None
    } else if actions[0].action_id == id {
        Some(actions[0])
    } else {
        lookup_action(actions.drop_first(), id)
    }
}

/// Whether some task of the session already ran this action.
pub open spec fn has_task_for(ts: Seq<Task>, action_id: Seq<char>) -> bool {
    exists|i: int| 0 <= i < ts.len() && (#[trigger] ts[i]).action_id@ == action_id
}

/// The selection rule: the first neighbor, in edge order, that names an
/// action of the workflow and that no task of the session has run yet;
/// nothing when every neighbor is known or spent.
pub open spec fn select_next(
    actions: Seq<ActionV>,
    neighbors: Seq<Seq<char>>,
    ts: Seq<Task>,
) -> Option<ActionV>
    decreases neighbors,
{
    if neighbors.len() == 0 {
        None
    } else {
        match lookup_action(actions, neighbors[0]) {
            Some(a) => if !has_task_for(ts, neighbors[0]) {
                Some(a)
            } else {
                select_next(actions, neighbors.drop_first(), ts)
            },
            None => select_next(actions, neighbors.drop_first(), ts),
        }
    }
}

/// The targets of the edges leaving `src`, in edge order.
#[verifier::loop_isolation(false)]
pub fn neighbors(edges: &Vec<Edge>, src: &String) -> (r: Vec<String>)
    ensures
        crate::templater::strs_view(r@) == neighbors_of(edges_view(edges@), src@),
{
    let sc = str_to_chars(src.as_str());
    let mut r: Vec<String> = Vec::new();
    let mut i: usize = 0;
    proof {
        assert(edges@.subrange(0, 0) =~= Seq::<Edge>::empty());
        assert(crate::templater::strs_view(r@) =~= neighbors_of(
            edges_view(edges@.subrange(0, 0)),
            src@,
        ));
    }
    while i < edges.len()
        invariant
            i <= edges@.len(),
            sc@ == src@,
            crate::templater::strs_view(r@) == neighbors_of(
                edges_view(edges@.subrange(0, i as int)),
                src@,
            ),
        decreases edges@.len() - i,
    {
        proof {
            let t = edges@.subrange(0, i as int + 1);
            assert(t.drop_last() =~= edges@.subrange(0, i as int));
            assert(t.last() == edges@[i as int]);
            assert(edges_view(t) == edges_view(t.drop_last()).push(
                (t.last().source@, t.last().target@),
            ));
            assert(edges_view(t).last() == (edges@[i as int].source@, edges@[i as int].target@));
            assert(edges_view(t).drop_last() =~= edges_view(edges@.subrange(0, i as int)));
        }
        if str_eq_chars(edges[i].source.as_str(), &sc) {
            let ghost r0 = r@;
            r.push(edges[i].target.clone());
            proof {
                assert(r@.drop_last() =~= r0);
                assert(crate::templater::strs_view(r@) == crate::templater::strs_view(
                    r@.drop_last(),
                ).push(r@.last()@));
            }
        }
        i = i + 1;
    }
    proof {
        assert(edges@.subrange(0, i as int) =~= edges@);
    }
    r
}

/// The first action of that id, if any.
#[verifier::loop_isolation(false)]
fn find_action<'a>(actions: &'a Vec<Action>, id: &Vec<char>) -> (r: Option<&'a Action>)
    ensures
        match r {
            Some(a) => lookup_action(actions_view(actions@), id@) == Some(a@),
            None => lookup_action(actions_view(actions@), id@) is None,
        },
{
    let ghost avs = actions_view(actions@);
    proof {
        lemma_actions_view(actions@);
        assert(avs.subrange(0, avs.len() as int) =~= avs);
    }
    let mut i: usize = 0;
    while i < actions.len()
        invariant
            i <= actions@.len(),
            lookup_action(avs, id@) == lookup_action(avs.subrange(i as int, avs.len() as int), id@),
        decreases actions@.len() - i,
    {
        proof {
            let t = avs.subrange(i as int, avs.len() as int);
            assert(t[0] == avs[i as int]);
            assert(t.drop_first() =~= avs.subrange(i as int + 1, avs.len() as int));
        }
        if str_eq_chars(actions[i].action_id.as_str(), id) {
            return Some(&actions[i]);
        }
        i = i + 1;
    }
    None
}

/// The views of the actions, one by one.
pub proof fn lemma_actions_view(s: Seq<Action>)
    ensures
        actions_view(s).len() == s.len(),
        forall|k: int| 0 <= k < s.len() ==> #[trigger] actions_view(s)[k] == s[k]@,
    decreases s,
{
    if s.len() > 0 {
        lemma_actions_view(s.drop_last());
        assert(actions_view(s) == actions_view(s.drop_last()).push(s.last()@));
        assert forall|k: int| 0 <= k < s.len() implies #[trigger] actions_view(s)[k] == s[k]@ by {
            if k < s.len() - 1 {
                assert(actions_view(s)[k] == actions_view(s.drop_last())[k]);
                assert(s.drop_last()[k] == s[k]);
            }
        }
    }
}

/// Whether some task of the session already ran this action.
#[verifier::loop_isolation(false)]
fn any_task_for(ts: &Vec<Task>, action_id: &Vec<char>) -> (r: bool)
    ensures
        r == has_task_for(ts@, action_id@),
{
    let mut i: usize = 0;
    while i < ts.len()
        invariant
            i <= ts@.len(),
            forall|j: int| 0 <= j < i ==> (#[trigger] ts@[j]).action_id@ != action_id@,
        decreases ts@.len() - i,
    {
        if str_eq_chars(ts[i].action_id.as_str(), action_id) {
            return true;
        }
        i = i + 1;
    }
    false
}

/// The next action to run after the action named `from_action_id` completed:
/// the first neighbor in edge order that the session has not run, or nothing
/// when the walk is over.
#[verifier::loop_isolation(false)]
pub fn next_action(
    actions: &Vec<Action>,
    edges: &Vec<Edge>,
    tasks: &Vec<Task>,
    from_action_id: &String,
) -> (r: Option<Action>)
    ensures
        match r {
            Some(a) => select_next(
                actions_view(actions@),
                neighbors_of(edges_view(edges@), from_action_id@),
                tasks@,
            ) == Some(a@),
            None => select_next(
                actions_view(actions@),
                neighbors_of(edges_view(edges@), from_action_id@),
                tasks@,
            ) is None,
        },
{
    let ns = neighbors(edges, from_action_id);
    let ghost nv = neighbors_of(edges_view(edges@), from_action_id@);
    proof {
        crate::templater::lemma_strs_view(ns@);
        assert(nv.subrange(0, nv.len() as int) =~= nv);
    }
    let mut i: usize = 0;
    while i < ns.len()
        invariant
            i <= ns@.len(),
            nv == crate::templater::strs_view(ns@),
            select_next(actions_view(actions@), nv, tasks@) == select_next(
                actions_view(actions@),
                nv.subrange(i as int, nv.len() as int),
                tasks@,
            ),
        decreases ns@.len() - i,
    {
        proof {
            let t = nv.subrange(i as int, nv.len() as int);
            assert(t[0] == nv[i as int]);
            assert(t.drop_first() =~= nv.subrange(i as int + 1, nv.len() as int));
        }
        let nid = str_to_chars(ns[i].as_str());
        match find_action(actions, &nid) {
            Some(a) => {
                if !any_task_for(tasks, &nid) {
                    return Some(a.clone());
                }
            },
            None => {},
        }
        i = i + 1;
    }
    None
}

} // verus!
