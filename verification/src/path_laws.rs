//! What holds of every report of a path.

use vstd::prelude::*;

use crate::critical_path;
use crate::critical_path::PathNode;
use crate::path_report;
use crate::time::Duration;
use crate::time::MAX_DURATION_NANOS;

verus! {

/// The entries of the runs, one after the other.
pub open spec fn joined_runs(runs: Seq<Seq<critical_path::EntryModel>>) -> Seq<
    critical_path::EntryModel,
>
    decreases runs.len(),
{
    if runs.len() == 0 {
        seq![]
    } else {
        joined_runs(runs.drop_last()) + runs.last()
    }
}

/// Collapsing entries into runs loses none, adds none and keeps their order.
pub proof fn law_runs_keep_entries(entries: Seq<critical_path::EntryModel>)
    ensures
        joined_runs(path_report::runs(entries)) == entries,
    decreases entries.len(),
{
    if entries.len() > 0 {
        let rest = path_report::runs(entries.drop_last());
        let all = path_report::runs(entries);
        law_runs_keep_entries(entries.drop_last());
        let init = entries.drop_last();
        assert(init.push(entries.last()) =~= entries);
        if rest.len() > 0 && rest.last()[0].extends_to(entries.last()) {
            assert(all.drop_last() =~= rest.drop_last());
            assert(joined_runs(all) =~= joined_runs(rest).push(entries.last()));
        } else {
            assert(all.drop_last() =~= rest);
            assert(joined_runs(all) =~= joined_runs(rest).push(entries.last()));
        }
    }
}

/// A run is not empty, every entry in it extends the run's first, and the first of the
/// next run does not. Any two entries of a run both wait, or agree in their kind, name,
/// category, identifier and execution kind; the last entry of a run and the first of the
/// next do neither.
pub proof fn law_runs_are_maximal(entries: Seq<critical_path::EntryModel>)
    ensures
        ({
            let all = path_report::runs(entries);
            &&& forall|k: int| 0 <= k < all.len() ==> (#[trigger] all[k]).len() > 0
            &&& forall|k: int, i: int|
                0 <= k < all.len() && 0 < i < all[k].len() ==> all[k][0].extends_to(
                    #[trigger] all[k][i],
                )
            &&& forall|k: int|
                0 < k < all.len() ==> !all[k - 1][0].extends_to((#[trigger] all[k])[0])
            &&& forall|k: int, i: int, j: int|
                0 <= k < all.len() && 0 <= i < all[k].len() && 0 <= j < all[k].len() ==> {
                    let a = #[trigger] all[k][i];
                    let b = #[trigger] all[k][j];
                    (a.kind == "waiting"@ && b.kind == "waiting"@) || (a.kind == b.kind && a.name
                        == b.name && a.category == b.category && a.identifier == b.identifier
                        && a.execution_kind == b.execution_kind)
                }
            &&& forall|k: int|
                0 < k < all.len() ==> {
                    let a = all[k - 1].last();
                    let b = (#[trigger] all[k])[0];
                    !(a.kind == "waiting"@ && b.kind == "waiting"@) && !(a.kind == b.kind && a.name
                        == b.name && a.category == b.category && a.identifier == b.identifier
                        && a.execution_kind == b.execution_kind)
                }
        }),
    decreases entries.len(),
{
    if entries.len() > 0 {
        let rest = path_report::runs(entries.drop_last());
        let all = path_report::runs(entries);
        let entry = entries.last();
        law_runs_are_maximal(entries.drop_last());
        assert forall|k: int| 0 <= k < all.len() implies (#[trigger] all[k]).len() > 0 by {
            if k < rest.len() {
                assert(rest[k].len() > 0);
            }
        }
        assert forall|k: int, i: int|
            0 <= k < all.len() && 0 < i < all[k].len() implies all[k][0].extends_to(
            #[trigger] all[k][i],
        ) by {
            if k < rest.len() {
                assert(rest[k].len() > 0);
                assert(all[k][0] == rest[k][0]);
                if i < rest[k].len() {
                    assert(all[k][i] == rest[k][i]);
                }
            }
        }
        assert forall|k: int| 0 < k < all.len() implies !all[k - 1][0].extends_to(
            (#[trigger] all[k])[0],
        ) by {
            assert(rest[k - 1].len() > 0);
            assert(all[k - 1][0] == rest[k - 1][0]);
            if k < rest.len() {
                assert(rest[k].len() > 0);
                assert(all[k][0] == rest[k][0]);
            }
        }
    }
}

/// Whether the entry at place `i` and the next one stand at the places `j` and `j + 1` of
/// the run `k`.
pub open spec fn neighbours_at(
    runs: Seq<Seq<critical_path::EntryModel>>,
    entries: Seq<critical_path::EntryModel>,
    i: int,
    k: int,
    j: int,
) -> bool {
    &&& 0 <= k < runs.len()
    &&& 0 <= j < runs[k].len() - 1
    &&& joined_runs(runs.take(k)).len() + j == i
    &&& runs[k][j] == entries[i]
    &&& runs[k][j + 1] == entries[i + 1]
}

/// Neighbours that both wait, or that agree in their kind, name, category, identifier and
/// execution kind, are neighbours in one run, at the place that they have in the path.
pub proof fn law_alike_neighbours_share_a_run(entries: Seq<critical_path::EntryModel>, i: int)
    requires
        0 <= i < entries.len() - 1,
        (entries[i].kind == "waiting"@ && entries[i + 1].kind == "waiting"@) || (entries[i].kind
            == entries[i + 1].kind && entries[i].name == entries[i + 1].name
            && entries[i].category == entries[i + 1].category && entries[i].identifier
            == entries[i + 1].identifier && entries[i].execution_kind
            == entries[i + 1].execution_kind),
    ensures
        exists|k: int, j: int|
            #![trigger path_report::runs(entries)[k][j]]
            neighbours_at(path_report::runs(entries), entries, i, k, j),
    decreases entries.len(),
{
    let init = entries.drop_last();
    let rest = path_report::runs(init);
    let all = path_report::runs(entries);
    law_runs_are_maximal(init);
    law_runs_keep_entries(init);
    if i + 1 < init.len() {
        assert(init[i] == entries[i] && init[i + 1] == entries[i + 1]);
        law_alike_neighbours_share_a_run(init, i);
        let (k, j) = choose|k: int, j: int|
            #![trigger rest[k][j]]
            neighbours_at(rest, init, i, k, j);
        assert(all.take(k) =~= rest.take(k));
        assert(neighbours_at(all, entries, i, k, j));
        assert(all[k][j] == entries[i]);
    } else {
        let k = rest.len() - 1;
        assert(rest.len() > 0);
        let j = rest[k].len() - 1;
        let first = rest[k][0];
        assert(rest[k][j] == init.last());
        assert(first.extends_to(entries.last()));
        assert(all.take(k) =~= rest.drop_last());
        assert(all[k] == rest[k].push(entries.last()));
        assert(neighbours_at(all, entries, i, k, j));
        assert(all[k][j] == entries[i]);
    }
}

/// Every entry is either shown or counted as hidden.
pub proof fn law_no_entry_is_lost(entries: Seq<critical_path::EntryModel>, threshold: nat)
    ensures
        path_report::shown(entries, threshold).len() + path_report::hidden_count(
            entries,
            threshold,
        ) == entries.len(),
    decreases entries.len(),
{
    if entries.len() > 0 {
        law_no_entry_is_lost(entries.drop_last(), threshold);
    }
}

/// The shown entries are those that reach the threshold, in their order.
pub proof fn law_shown_entries_reach_threshold(
    entries: Seq<critical_path::EntryModel>,
    threshold: nat,
)
    ensures
        path_report::shown(entries, threshold) == entries.filter(
            |e: critical_path::EntryModel| e.impact() >= threshold,
        ),
    decreases entries.len(),
{
    reveal(Seq::filter);
    if entries.len() > 0 {
        law_shown_entries_reach_threshold(entries.drop_last(), threshold);
    } else {
        assert(entries =~= Seq::<critical_path::EntryModel>::empty());
    }
}

/// A threshold of zero hides nothing.
pub proof fn law_zero_threshold_hides_nothing(entries: Seq<critical_path::EntryModel>)
    ensures
        path_report::shown(entries, 0) == entries,
        path_report::hidden_count(entries, 0) == 0,
        path_report::hidden_total(entries, 0) == 0,
    decreases entries.len(),
{
    if entries.len() > 0 {
        law_zero_threshold_hides_nothing(entries.drop_last());
        assert(entries.drop_last().push(entries.last()) =~= entries);
    }
}

/// The names of a run are distinct, and they are the names that occur in it.
pub proof fn law_names_are_distinct(run: Seq<critical_path::EntryModel>)
    ensures
        critical_path::distinct_names(run).no_duplicates(),
        forall|i: int|
            0 <= i < run.len() ==> critical_path::distinct_names(run).contains(
                (#[trigger] run[i]).name,
            ),
        forall|j: int|
            0 <= j < critical_path::distinct_names(run).len() ==> exists|i: int|
                0 <= i < run.len() && (#[trigger] run[i]).name == (
                #[trigger] critical_path::distinct_names(run)[j]),
    decreases run.len(),
{
    if run.len() > 0 {
        let init = run.drop_last();
        law_names_are_distinct(init);
        let names = critical_path::distinct_names(init);
        let all = critical_path::distinct_names(run);
        assert forall|i: int| 0 <= i < run.len() implies all.contains((#[trigger] run[i]).name) by {
            if i < init.len() {
                assert(init[i] == run[i]);
                let j = choose|j: int| 0 <= j < names.len() && names[j] == run[i].name;
                assert(all[j] == run[i].name);
            } else if !names.contains(run[i].name) {
                assert(all[all.len() - 1] == run[i].name);
            }
        }
        assert forall|j: int| 0 <= j < all.len() implies exists|i: int|
            0 <= i < run.len() && (#[trigger] run[i]).name == (#[trigger] all[j]) by {
            if j < names.len() {
                let i = choose|i: int|
                    0 <= i < init.len() && (#[trigger] init[i]).name == names[j];
                assert(run[i].name == all[j]);
            } else {
                assert(run[run.len() - 1].name == all[j]);
            }
        }
    }
}

/// Only the readable format depends on the threshold.
pub proof fn law_threshold_is_for_readable(
    path: Seq<PathNode>,
    format: path_report::LogFormat,
    a: nat,
    b: nat,
)
    requires
        !(format is Readable),
    ensures
        path_report::report(path, format, a) == path_report::report(path, format, b),
{
}

/// All the durations of an entry together.
spec fn entry_weight(e: critical_path::EntryModel) -> nat {
    critical_path::or_zero(e.total) + critical_path::or_zero(e.user) + critical_path::or_zero(
        e.potential,
    ) + critical_path::or_zero(e.off_path)
}

spec fn entries_weight(entries: Seq<critical_path::EntryModel>) -> nat
    decreases entries.len(),
{
    if entries.len() == 0 {
        0
    } else {
        entries_weight(entries.drop_last()) + entry_weight(entries.last())
    }
}

/// The length of a recorded duration, zero where there is none.
pub open spec fn recorded_nanos(d: Option<Result<Duration, String>>) -> nat {
    match d {
        Some(Ok(d)) => d@,
        _ => 0,
    }
}

/// All the durations of a node together.
pub open spec fn node_weight(node: PathNode) -> nat {
    recorded_nanos(node.total_duration) + recorded_nanos(node.user_duration) + recorded_nanos(
        node.potential_improvement_duration,
    ) + recorded_nanos(node.non_critical_path_duration)
}

/// All the durations of a path together.
pub open spec fn path_weight(path: Seq<PathNode>) -> nat
    decreases path.len(),
{
    if path.len() == 0 {
        0
    } else {
        path_weight(path.drop_last()) + node_weight(path.last())
    }
}

proof fn lemma_run_sum(run: Seq<critical_path::EntryModel>)
    ensures
        critical_path::or_zero(critical_path::total_of(run)) <= entries_weight(run),
        critical_path::or_zero(critical_path::off_path_of(run)) <= entries_weight(run),
        critical_path::or_zero(critical_path::user_of(run)) <= entries_weight(run),
        critical_path::or_zero(critical_path::potential_of(run)) <= entries_weight(run),
    decreases run.len(),
{
    if run.len() > 0 {
        let init = run.drop_last();
        lemma_run_sum(init);
        assert(run.map_values(|e: critical_path::EntryModel| e.total).drop_last()
            =~= init.map_values(|e: critical_path::EntryModel| e.total));
        assert(run.map_values(|e: critical_path::EntryModel| e.off_path).drop_last()
            =~= init.map_values(|e: critical_path::EntryModel| e.off_path));
        assert(run.map_values(|e: critical_path::EntryModel| e.user).drop_last()
            =~= init.map_values(|e: critical_path::EntryModel| e.user));
        assert(run.map_values(|e: critical_path::EntryModel| e.potential).drop_last()
            =~= init.map_values(|e: critical_path::EntryModel| e.potential));
    }
}

proof fn lemma_run_weight(entries: Seq<critical_path::EntryModel>)
    ensures
        forall|k: int|
            0 <= k < path_report::runs(entries).len() ==> entries_weight(
                #[trigger] path_report::runs(entries)[k],
            ) <= entries_weight(entries),
    decreases entries.len(),
{
    if entries.len() > 0 {
        let rest = path_report::runs(entries.drop_last());
        let all = path_report::runs(entries);
        lemma_run_weight(entries.drop_last());
        assert forall|k: int| 0 <= k < all.len() implies entries_weight(#[trigger] all[k])
            <= entries_weight(entries) by {
            if k < rest.len() {
                assert(entries_weight(rest[k]) <= entries_weight(entries.drop_last()));
                if all[k].len() > rest[k].len() {
                    assert(all[k].drop_last() =~= rest[k]);
                } else {
                    assert(all[k] =~= rest[k]);
                }
            } else {
                reveal_with_fuel(entries_weight, 2);
                assert(all[k].drop_last() =~= Seq::<critical_path::EntryModel>::empty());
            }
        }
    }
}

proof fn lemma_shown_weight(entries: Seq<critical_path::EntryModel>, threshold: nat)
    ensures
        entries_weight(path_report::shown(entries, threshold)) <= entries_weight(entries),
        path_report::hidden_total(entries, threshold) <= entries_weight(entries),
    decreases entries.len(),
{
    if entries.len() > 0 {
        lemma_shown_weight(entries.drop_last(), threshold);
        let rest = path_report::shown(entries.drop_last(), threshold);
        assert(rest.push(entries.last()).drop_last() =~= rest);
    }
}

proof fn lemma_path_weight(path: Seq<PathNode>)
    ensures
        entries_weight(path_report::entries_of(path).0) <= path_weight(path),
    decreases path.len(),
{
    if path.len() > 0 {
        lemma_path_weight(path.drop_last());
        let entries = path_report::entries_of(path.drop_last()).0;
        if let Ok(Some(entry)) = path_report::entry_of(path.last()) {
            assert(entries.push(entry).drop_last() =~= entries);
        }
    }
}

/// Where all the durations of a path together are a duration, so are the sums in its
/// report.
pub proof fn law_short_paths_fit(path: Seq<PathNode>, threshold: nat)
    requires
        path_weight(path) <= MAX_DURATION_NANOS,
    ensures
        path_report::report_fits(path, threshold),
{
    let entries = path_report::entries_of(path).0;
    let shown = path_report::shown(entries, threshold);
    lemma_path_weight(path);
    lemma_shown_weight(entries, threshold);
    lemma_run_weight(shown);
    assert forall|k: int| 0 <= k < path_report::runs(shown).len() implies critical_path::sums_fit(
        #[trigger] path_report::runs(shown)[k],
    ) by {
        lemma_run_sum(path_report::runs(shown)[k]);
    }
}

fn recorded_length(d: &Option<Result<Duration, String>>) -> (n: u128)
    ensures
        n == recorded_nanos(*d),
        n <= MAX_DURATION_NANOS,
{
    match d {
        Some(Ok(d)) => d.as_nanos(),
        _ => 0,
    }
}

proof fn lemma_weight_grows(path: Seq<PathNode>, n: int)
    requires
        0 <= n <= path.len(),
    ensures
        path_weight(path.take(n)) <= path_weight(path),
    decreases path.len(),
{
    if n == path.len() {
        assert(path.take(n) =~= path);
    } else {
        assert(path.drop_last().take(n) =~= path.take(n));
        lemma_weight_grows(path.drop_last(), n);
    }
}

/// Whether all the durations of a path together are a duration. If so, the path can be
/// reported in every format.
pub fn durations_fit(path: &Vec<PathNode>) -> (b: bool)
    ensures
        b == (path_weight(path@) <= MAX_DURATION_NANOS),
        b ==> forall|threshold: nat| #[trigger] path_report::report_fits(path@, threshold),
{
    let mut sum: u128 = 0;
    let mut i: usize = 0;
    assert(path@.take(0) =~= Seq::<PathNode>::empty());
    while i < path.len()
        invariant
            i <= path.len(),
            sum == path_weight(path@.take(i as int)),
            sum <= MAX_DURATION_NANOS,
        decreases path.len() - i,
    {
        let node = &path[i];
        proof {
            assert(path@.take(i + 1).drop_last() =~= path@.take(i as int));
            lemma_weight_grows(path@, i + 1);
        }
        sum = sum + recorded_length(&node.total_duration) + recorded_length(&node.user_duration)
            + recorded_length(&node.potential_improvement_duration) + recorded_length(
            &node.non_critical_path_duration,
        );
        if sum > MAX_DURATION_NANOS {
            return false;
        }
        i = i + 1;
    }
    assert(path@.take(i as int) =~= path@);
    proof {
        assert forall|threshold: nat| #[trigger] path_report::report_fits(path@, threshold) by {
            law_short_paths_fit(path@, threshold);
        }
    }
    true
}

} // verus!
