use vstd::prelude::*;

use crate::cutoff::{sat_add, CutoffDecision};
use crate::scan::{
    build_output_path, cycle_chain, is_project, model_wf, next,
    truncated, lemma_push_fresh, ActionModel, ChildView, EventModel, PhaseModel, ScanModel,
};

verus! {

/// The state after a run of events, and the actions asked for along the way.
pub open spec fn run(s: ScanModel, es: Seq<EventModel>) -> (ScanModel, Seq<ActionModel>)
    decreases es.len(),
{
    if es.len() == 0 {
        (s, Seq::empty())
    } else {
        let (s1, a) = next(s, es[0]);
        let (s2, rest) = run(s1, es.drop_first());
        (s2, seq![a] + rest)
    }
}

/// The event lists a directory that is a project.
pub open spec fn lists_project(e: EventModel) -> bool {
    e is Listed && is_project(e->Listed_0)
}

/// A scan that never lists a project reclaims nothing and asks for no
/// reclamation or deletion, whatever else it meets.
pub proof fn lemma_no_project_reclaims_nothing(s: ScanModel, es: Seq<EventModel>)
    requires
        s.total == 0,
        !(s.phase is Deciding),
        forall|i: int| 0 <= i < es.len() ==> !lists_project(#[trigger] es[i]),
    ensures
        run(s, es).0.total == 0,
        forall|i: int| 0 <= i < run(s, es).1.len() ==> !(#[trigger] run(s, es).1[i] is Reclaim),
    decreases es.len(),
{
    if es.len() > 0 {
        let (s1, a) = next(s, es[0]);
        assert(!lists_project(es[0]));
        let rest = es.drop_first();
        assert forall|i: int| 0 <= i < rest.len() implies !lists_project(#[trigger] rest[i]) by {
            assert(rest[i] == es[i + 1]);
        }
        lemma_no_project_reclaims_nothing(s1, rest);
        let acts = run(s, es).1;
        assert(acts == seq![a] + run(s1, rest).1);
        assert forall|i: int| 0 <= i < acts.len() implies !(#[trigger] acts[i] is Reclaim) by {
            if i > 0 {
                assert(acts[i] == run(s1, rest).1[i - 1]);
            }
        }
    }
}

/// Forgets whether a reclamation deletes.
pub open spec fn report_only(a: ActionModel) -> ActionModel {
    match a {
        ActionModel::Reclaim(t, n, _) => ActionModel::Reclaim(t, n, false),
        _ => a,
    }
}

/// A dry run and a deleting run that see the same events report the same
/// directories with the same sizes and the same total; they differ only in
/// whether each reclamation deletes, which follows the authorization.
pub proof fn lemma_dry_run_reports_same(s: ScanModel, es: Seq<EventModel>, delete: bool)
    ensures
        ({
            let t = ScanModel { delete_authorized: delete, ..s };
            &&& run(t, es).0 == (ScanModel { delete_authorized: delete, ..run(s, es).0 })
            &&& run(t, es).1.len() == run(s, es).1.len()
            &&& forall|i: int|
                0 <= i < run(s, es).1.len() ==> report_only(#[trigger] run(t, es).1[i])
                    == report_only(run(s, es).1[i])
        }),
        forall|i: int|
            0 <= i < run(s, es).1.len() && #[trigger] run(s, es).1[i] is Reclaim ==> run(
                s,
                es,
            ).1[i]->Reclaim_2 == s.delete_authorized,
    decreases es.len(),
{
    if es.len() > 0 {
        let t = ScanModel { delete_authorized: delete, ..s };
        let (s1, a) = next(s, es[0]);
        let (t1, b) = next(t, es[0]);
        assert(t1 == ScanModel { delete_authorized: delete, ..s1 });
        assert(report_only(a) == report_only(b));
        assert(s1.delete_authorized == s.delete_authorized);
        let rest = es.drop_first();
        lemma_dry_run_reports_same(s1, rest, delete);
        assert(ScanModel { delete_authorized: delete, ..s1 } == t1);
        let acts = run(s, es).1;
        let bcts = run(t, es).1;
        assert forall|i: int| 0 <= i < acts.len() implies report_only(#[trigger] bcts[i])
            == report_only(acts[i]) by {
            if i > 0 {
                assert(acts[i] == run(s1, rest).1[i - 1]);
                assert(bcts[i] == run(t1, rest).1[i - 1]);
            }
        }
        assert forall|i: int| 0 <= i < acts.len() && #[trigger] acts[i] is Reclaim implies acts[i]->Reclaim_2
            == s.delete_authorized by {
            if i > 0 {
                assert(acts[i] == run(s1, rest).1[i - 1]);
            }
        }
    }
}

/// Without an age cutoff a project's build output is measured, never checked
/// for age, and whatever size the measurement gives is reclaimed.
pub proof fn lemma_no_cutoff_always_eligible(
    s: ScanModel,
    dir: Seq<u8>,
    children: Seq<ChildView>,
    size: u64,
)
    requires
        s.cutoff is None,
        s.phase == PhaseModel::Listing(dir),
        is_project(children),
    ensures
        ({
            let (s1, a) = next(s, EventModel::Listed(children));
            let (s2, b) = next(s1, EventModel::Decided(CutoffDecision::Eligible(size)));
            &&& a == ActionModel::Measure(build_output_path(dir))
            &&& b == ActionModel::Reclaim(build_output_path(dir), size, s.delete_authorized)
            &&& s2.total == sat_add(s.total, size)
        }),
{
}

/// A resolved path already on the current descent path is a cycle: the scan
/// reports the chain from that path's first occurrence back to it, and does
/// not descend.
pub proof fn lemma_cycle_not_entered(s: ScanModel, c: Seq<u8>)
    requires
        model_wf(s),
        s.phase is Resolving,
        truncated(s.visited, s.work.last().1).contains(c),
    ensures
        ({
            let v = truncated(s.visited, s.work.last().1);
            let (s1, a) = next(s, EventModel::Resolved(Some(c)));
            &&& a == ActionModel::Cycle(cycle_chain(v, c))
            &&& cycle_chain(v, c).first() == c
            &&& cycle_chain(v, c).last() == c
            &&& s1.visited == v
            &&& s1.work == s.work.drop_last()
            &&& s1.phase is Acknowledging
            &&& s1.total == s.total
        }),
{
    let v = truncated(s.visited, s.work.last().1);
    let i = choose|i: int| 0 <= i < v.len() && v[i] == c;
    assert(cycle_chain(v, c)[0] == v[i]);
}

/// Along any run the descent path never holds the same directory twice, so
/// its depth is bounded by the number of distinct directories and the
/// descent cannot go on forever through links.
pub proof fn lemma_descent_path_stays_distinct(s: ScanModel, es: Seq<EventModel>)
    requires
        model_wf(s),
    ensures
        model_wf(run(s, es).0),
        run(s, es).0.visited.no_duplicates(),
    decreases es.len(),
{
    if es.len() > 0 {
        lemma_next_keeps_wf(s, es[0]);
        lemma_descent_path_stays_distinct(next(s, es[0]).0, es.drop_first());
    }
}

/// One step keeps a state well formed.
pub proof fn lemma_next_keeps_wf(s: ScanModel, e: EventModel)
    requires
        model_wf(s),
    ensures
        model_wf(next(s, e).0),
{
    if s.phase is Resolving && e is Resolved && e->Resolved_0 is Some {
        let c = e->Resolved_0->Some_0;
        let v = truncated(s.visited, s.work.last().1);
        assert(v.no_duplicates()) by {
            if 0 <= s.work.last().1 < s.visited.len() {
                assert forall|a: int, b: int|
                    0 <= a < v.len() && 0 <= b < v.len() && a != b implies v[a] != v[b] by {
                    assert(v[a] == s.visited[a] && v[b] == s.visited[b]);
                }
            }
        }
        if !v.contains(c) {
            lemma_push_fresh(v, c);
        }
    }
}

/// A resolved path that is not on the current descent path is entered, even
/// when the same directory was entered before through another path: each
/// distinct descent path visits it once.
pub proof fn lemma_fresh_path_entered(s: ScanModel, c: Seq<u8>)
    requires
        s.phase is Resolving,
        s.work.len() > 0,
        !truncated(s.visited, s.work.last().1).contains(c),
    ensures
        ({
            let (s1, a) = next(s, EventModel::Resolved(Some(c)));
            &&& a == ActionModel::List(s.work.last().0)
            &&& s1.visited == truncated(s.visited, s.work.last().1).push(c)
            &&& s1.work == s.work.drop_last()
            &&& s1.total == s.total
        }),
{
}

/// A project directory is never descended into: its listing queues none of
/// its entries and leaves the descent path as it was, so a project nested in
/// it is never seen.
pub proof fn lemma_project_not_descended(
    s: ScanModel,
    dir: Seq<u8>,
    children: Seq<ChildView>,
)
    requires
        s.phase == PhaseModel::Listing(dir),
        is_project(children),
    ensures
        ({
            let (s1, a) = next(s, EventModel::Listed(children));
            &&& s1 == (ScanModel { phase: PhaseModel::Deciding(build_output_path(dir)), ..s })
            &&& (a is Evaluate || a is Measure)
        }),
{
}

} // verus!
