//! What each node of a path comes to in its report.

use vstd::prelude::*;

use crate::critical_path;
use crate::critical_path::CriticalPathEntry;
use crate::critical_path::OutputItem;
use crate::critical_path::PathKind;
use crate::critical_path::PathNode;
use crate::critical_path::RowStyle;
use crate::fmt_duration;
use crate::path_report;
use crate::path_report::LogFormat;
use crate::path_report::PathError;
use crate::text;
use crate::time::Duration;

verus! {

/// Whether the recorded duration is present but is not one.
pub open spec fn is_invalid(d: Option<Result<Duration, String>>) -> bool {
    d is Some && d->0 is Err
}

/// Whether a length stands for a recorded duration: both are missing, or they are equal.
pub open spec fn stands_for(length: Option<nat>, d: Option<Result<Duration, String>>) -> bool {
    match d {
        None => length is None,
        Some(d) => d is Ok && length == Some(d->Ok_0@),
    }
}

/// The entry of a node that is shown and whose durations are all missing or valid takes
/// each of its columns from the part of the node that it is named after. The start is in
/// whole microseconds.
pub proof fn law_entry_shows_its_node(node: PathNode)
    requires
        node.display is Ok,
        node.display->Ok_0 is Some,
        !is_invalid(node.total_duration),
        !is_invalid(node.user_duration),
        !is_invalid(node.potential_improvement_duration),
        !is_invalid(node.non_critical_path_duration),
    ensures
        path_report::entry_of(node) is Ok,
        path_report::entry_of(node)->Ok_0 is Some,
        ({
            let entry = path_report::entry_of(node)->Ok_0->0;
            let display = node.display->Ok_0->0;
            &&& entry.kind == display.kind@
            &&& entry.name == display.name@
            &&& entry.category is Some <==> display.category is Some
            &&& entry.category is Some ==> entry.category->0 == display.category->0@
            &&& entry.identifier is Some <==> display.identifier is Some
            &&& entry.identifier is Some ==> entry.identifier->0 == display.identifier->0@
            &&& entry.execution_kind is Some <==> display.execution_kind is Some
            &&& entry.execution_kind is Some ==> entry.execution_kind->0
                == display.execution_kind->0@
            &&& stands_for(entry.total, node.total_duration)
            &&& stands_for(entry.user, node.user_duration)
            &&& stands_for(entry.potential, node.potential_improvement_duration)
            &&& stands_for(entry.off_path, node.non_critical_path_duration)
            &&& node.start_offset_ns is None ==> entry.start_offset == 0
            &&& node.start_offset_ns matches Some(ns) ==> entry.start_offset * 1_000 <= ns < (
            entry.start_offset + 1) * 1_000
        }),
{
}

/// A node that cannot be shown is an error, whatever else it holds, and one that is not
/// shown is not, whatever else it holds.
pub proof fn law_display_comes_first(node: PathNode)
    ensures
        node.display matches Err(e) ==> path_report::entry_of(node) == Err::<
            Option<critical_path::EntryModel>,
            path_report::PathErrorModel,
        >(path_report::PathErrorModel::Display(e@)),
        node.display is Ok && node.display->Ok_0 is None ==> path_report::entry_of(node) == Ok::<
            Option<critical_path::EntryModel>,
            path_report::PathErrorModel,
        >(None),
{
}

/// Of a node that is shown, the first invalid duration is reported, in the order total,
/// user, potential and off the path.
pub proof fn law_first_invalid_duration_is_reported(node: PathNode)
    requires
        node.display is Ok,
        node.display->Ok_0 is Some,
    ensures
        ({
            let entry = path_report::entry_of(node);
            let total = node.total_duration;
            let user = node.user_duration;
            let potential = node.potential_improvement_duration;
            let off_path = node.non_critical_path_duration;
            &&& is_invalid(total) ==> entry is Err && entry->Err_0
                == path_report::PathErrorModel::InvalidDuration(total->0->Err_0@)
            &&& !is_invalid(total) && is_invalid(user) ==> entry is Err && entry->Err_0
                == path_report::PathErrorModel::InvalidDuration(user->0->Err_0@)
            &&& !is_invalid(total) && !is_invalid(user) && is_invalid(potential) ==> entry is Err
                && entry->Err_0 == path_report::PathErrorModel::InvalidDuration(
                potential->0->Err_0@,
            )
            &&& !is_invalid(total) && !is_invalid(user) && !is_invalid(potential) && is_invalid(
                off_path,
            ) ==> entry is Err && entry->Err_0 == path_report::PathErrorModel::InvalidDuration(
                off_path->0->Err_0@,
            )
        }),
{
}

/// The entries of a path are those of its parts one after the other, up to the first node
/// that cannot be reported; one node has at most one entry.
pub proof fn law_entries_follow_the_path(a: Seq<PathNode>, node: PathNode, b: Seq<PathNode>)
    ensures
        path_report::entries_of(seq![]).0.len() == 0,
        path_report::entries_of(seq![]).1 is None,
        ({
            let (entries, error) = path_report::entries_of(seq![node]);
            match path_report::entry_of(node) {
                Ok(Some(entry)) => entries == seq![entry] && error is None,
                Ok(None) => entries.len() == 0 && error is None,
                Err(e) => entries.len() == 0 && error == Some(e),
            }
        }),
        path_report::entries_of(a).1 is None ==> path_report::entries_of(a + b) == (
            path_report::entries_of(a).0 + path_report::entries_of(b).0,
            path_report::entries_of(b).1,
        ),
        path_report::entries_of(a).1 is Some ==> path_report::entries_of(a + b)
            == path_report::entries_of(a),
    decreases b.len(),
{
    reveal_with_fuel(path_report::entries_of, 2);
    let one = seq![node];
    assert(one.drop_last() =~= Seq::<PathNode>::empty());
    assert(path_report::entries_of(one.drop_last()).0 =~= Seq::<
        critical_path::EntryModel,
    >::empty());
    if let Ok(Some(entry)) = path_report::entry_of(node) {
        assert(path_report::entries_of(one).0 =~= seq![entry]);
    }
    if b.len() == 0 {
        assert(a + b =~= a);
        assert(path_report::entries_of(a).0 + path_report::entries_of(b).0
            =~= path_report::entries_of(a).0);
    } else {
        law_entries_follow_the_path(a, node, b.drop_last());
        assert((a + b).drop_last() =~= a + b.drop_last());
        assert(path_report::entries_of(a).1 is None ==> path_report::entries_of(a + b).0
            =~= path_report::entries_of(a).0 + path_report::entries_of(b).0);
    }
}

/// The impact of an entry is the largest of the time that it took, the time it spent off
/// the path and the time it could save, as far as they are known. The time that the user
/// can improve does not count.
pub proof fn law_impact_is_the_largest(
    e: critical_path::EntryModel,
    other: critical_path::EntryModel,
)
    ensures
        e.total is Some ==> e.impact() >= e.total->0,
        e.off_path is Some ==> e.impact() >= e.off_path->0,
        e.potential is Some ==> e.impact() >= e.potential->0,
        e.impact() == 0 || e.total == Some(e.impact()) || e.off_path == Some(e.impact())
            || e.potential == Some(e.impact()),
        e.total == other.total && e.off_path == other.off_path && e.potential == other.potential
            ==> e.impact() == other.impact(),
{
}

/// The impacts of all entries together are those of the hidden ones and of the shown ones.
pub proof fn law_hidden_total_is_the_rest(
    entries: Seq<critical_path::EntryModel>,
    threshold: nat,
)
    ensures
        total_impact(entries) == path_report::hidden_total(entries, threshold) + total_impact(
            path_report::shown(entries, threshold),
        ),
    decreases entries.len(),
{
    if entries.len() > 0 {
        law_hidden_total_is_the_rest(entries.drop_last(), threshold);
        let rest = path_report::shown(entries.drop_last(), threshold);
        assert(rest.push(entries.last()).drop_last() =~= rest);
    }
}

/// The impacts of the entries together.
pub open spec fn total_impact(entries: Seq<critical_path::EntryModel>) -> nat
    decreases entries.len(),
{
    if entries.len() == 0 {
        0
    } else {
        total_impact(entries.drop_last()) + entries.last().impact()
    }
}

/// Every entry is shown exactly if one of the times that count reaches the threshold.
pub proof fn law_threshold_decides_what_is_shown(
    entries: Seq<critical_path::EntryModel>,
    e: critical_path::EntryModel,
    threshold: nat,
)
    ensures
        ({
            let before = path_report::shown(entries, threshold);
            let after = path_report::shown(entries.push(e), threshold);
            let reaches = threshold == 0 || (e.total is Some && e.total->0 >= threshold) || (
            e.off_path is Some && e.off_path->0 >= threshold) || (e.potential is Some
                && e.potential->0 >= threshold);
            &&& reaches ==> after == before.push(e)
            &&& !reaches ==> after == before
            &&& path_report::hidden_count(entries.push(e), threshold)
                == path_report::hidden_count(entries, threshold) + if reaches {
                0nat
            } else {
                1nat
            }
        }),
{
    assert(entries.push(e).drop_last() =~= entries);
}

/// Whether `sum` is the sum of the lengths that are present, and missing if none is.
pub open spec fn is_sum(lengths: Seq<Option<nat>>, sum: Option<nat>) -> bool
    decreases lengths.len(),
{
    if lengths.len() == 0 {
        sum is None
    } else if lengths[0] is None {
        is_sum(lengths.drop_first(), sum)
    } else {
        &&& sum is Some
        &&& sum->0 >= lengths[0]->0
        &&& {
            let rest = (sum->0 - lengths[0]->0) as nat;
            is_sum(lengths.drop_first(), Some(rest)) || (rest == 0 && is_sum(
                lengths.drop_first(),
                None,
            ))
        }
    }
}

/// The sum over a run counts every length that is present once, and is missing exactly if
/// none is present.
pub proof fn law_sums_count_every_length(lengths: Seq<Option<nat>>, sum: Option<nat>)
    requires
        is_sum(lengths, sum),
    ensures
        critical_path::sum_present(lengths) == sum,
        sum is None <==> forall|i: int| 0 <= i < lengths.len() ==> #[trigger] lengths[i] is None,
    decreases lengths.len(),
{
    if lengths.len() > 0 {
        let rest = lengths.drop_first();
        lemma_sum_front(lengths);
        if lengths[0] is None {
            law_sums_count_every_length(rest, sum);
            if sum is None {
                assert forall|i: int| 0 <= i < lengths.len() implies #[trigger] lengths[i] is None by {
                    if i > 0 {
                        assert(rest[i - 1] == lengths[i]);
                    }
                }
            } else {
                let i = choose|i: int| 0 <= i < rest.len() && !(#[trigger] rest[i] is None);
                assert(lengths[i + 1] == rest[i]);
            }
        } else {
            let left = (sum->0 - lengths[0]->0) as nat;
            if is_sum(rest, Some(left)) {
                law_sums_count_every_length(rest, Some(left));
            } else {
                law_sums_count_every_length(rest, None);
            }
        }
    }
}

proof fn lemma_sum_front(lengths: Seq<Option<nat>>)
    requires
        lengths.len() > 0,
    ensures
        lengths[0] is None ==> critical_path::sum_present(lengths) == critical_path::sum_present(
            lengths.drop_first(),
        ),
        lengths[0] matches Some(n) ==> critical_path::sum_present(lengths) == Some(
            n + critical_path::or_zero(critical_path::sum_present(lengths.drop_first())),
        ),
    decreases lengths.len(),
{
    reveal_with_fuel(critical_path::sum_present, 2);
    let init = lengths.drop_last();
    if init.len() == 0 {
        assert(lengths.drop_first() =~= Seq::<Option<nat>>::empty());
    } else {
        lemma_sum_front(init);
        assert(init.drop_first() =~= lengths.drop_first().drop_last());
        assert(init[0] == lengths[0]);
    }
}

/// There is a sum for every list of lengths.
pub proof fn law_every_list_has_a_sum(lengths: Seq<Option<nat>>)
    ensures
        is_sum(lengths, critical_path::sum_present(lengths)),
    decreases lengths.len(),
{
    if lengths.len() > 0 {
        lemma_sum_front(lengths);
        law_every_list_has_a_sum(lengths.drop_first());
    }
}

/// A readable length, or nothing.
pub open spec fn length_text(d: Option<nat>) -> Seq<char> {
    if d is Some {
        fmt_duration::precise_text(d->0)
    } else {
        seq![]
    }
}

/// The row of a run shows when its first entry started and, over all its entries, the time
/// taken, the time off the path, the time that the user can improve and the time that
/// could be saved, each padded to ten characters. Behind that come the kind of its first
/// entry, its distinct names, the category, identifier and execution kind of its first
/// entry, and the number of entries if there are several. It is painted by the time that
/// could be saved or, where that is not known, the time taken.
pub proof fn law_row_of_a_run(
    run: Seq<critical_path::EntryModel>,
    total: Option<nat>,
    off_path: Option<nat>,
    user: Option<nat>,
    potential: Option<nat>,
)
    requires
        run.len() > 0,
        is_sum(run.map_values(|e: critical_path::EntryModel| e.total), total),
        is_sum(run.map_values(|e: critical_path::EntryModel| e.off_path), off_path),
        is_sum(run.map_values(|e: critical_path::EntryModel| e.user), user),
        is_sum(run.map_values(|e: critical_path::EntryModel| e.potential), potential),
    ensures
        critical_path::row(run) is Row,
        ({
            let line = critical_path::row(run)->line;
            let style = critical_path::row(run)->style;
            let key = if potential is Some {
                potential->0
            } else if total is Some {
                total->0
            } else {
                0
            };
            let first = run[0];
            let start = text::right_aligned(
                fmt_duration::precise_text(first.start_offset as nat * 1_000),
                10,
            );
            let text_of = |s: Option<Seq<char>>|
                if s is Some {
                    s->0
                } else {
                    Seq::<char>::empty()
                };
            &&& line == start + " "@ + text::right_aligned(length_text(total), 10) + " "@
                + text::right_aligned(length_text(off_path), 10) + " "@ + text::right_aligned(
                length_text(user),
                10,
            ) + " "@ + text::right_aligned(length_text(potential), 10) + " "@ + first.kind + " "@
                + text::joined(critical_path::distinct_names(run), " / "@) + " "@ + text_of(
                first.category,
            ) + " "@ + text_of(first.identifier) + " "@ + text_of(first.execution_kind) + (
            if run.len() > 1 {
                " (×"@ + text::decimal(run.len()) + ")"@
            } else {
                Seq::<char>::empty()
            })
            &&& style == RowStyle::Gray <==> key < 100_000_000
            &&& style == RowStyle::Normal <==> 100_000_000 <= key < 1_000_000_000
            &&& style == RowStyle::Yellow <==> 1_000_000_000 <= key < 5_000_000_000
            &&& style == RowStyle::Red <==> 5_000_000_000 <= key < 10_000_000_000
            &&& style == RowStyle::BoldRed <==> 10_000_000_000 <= key
        }),
{
    law_sums_count_every_length(
        run.map_values(|e: critical_path::EntryModel| e.total),
        total,
    );
    law_sums_count_every_length(
        run.map_values(|e: critical_path::EntryModel| e.off_path),
        off_path,
    );
    law_sums_count_every_length(run.map_values(|e: critical_path::EntryModel| e.user), user);
    law_sums_count_every_length(
        run.map_values(|e: critical_path::EntryModel| e.potential),
        potential,
    );
}

/// The names of a run stand in the order in which they come first: one more entry adds its
/// name at the end, unless the run has it already.
pub proof fn law_names_keep_their_order(
    run: Seq<critical_path::EntryModel>,
    e: critical_path::EntryModel,
)
    ensures
        critical_path::distinct_names(seq![]).len() == 0,
        (exists|i: int| 0 <= i < run.len() && (#[trigger] run[i]).name == e.name)
            ==> critical_path::distinct_names(run.push(e)) == critical_path::distinct_names(run),
        !(exists|i: int| 0 <= i < run.len() && (#[trigger] run[i]).name == e.name)
            ==> critical_path::distinct_names(run.push(e)) == critical_path::distinct_names(
            run,
        ).push(e.name),
{
    crate::path_laws::law_names_are_distinct(run);
    assert(run.push(e).drop_last() =~= run);
    let names = critical_path::distinct_names(run);
    if names.contains(e.name) {
        let j = choose|j: int| 0 <= j < names.len() && names[j] == e.name;
        assert(names[j] == e.name);
    }
}

/// The readable report: the meaning of the columns, an empty line, the names of the
/// columns, and one row for each run of shown entries. If the path was reported to its
/// end, and entries are hidden, an empty line and one that says how many and how long
/// follow. If it was not, the row of the last run is missing.
pub proof fn law_readable_report(path: Seq<PathNode>, threshold: nat)
    ensures
        ({
            let (items, error) = path_report::report(path, LogFormat::Readable, threshold);
            let entries = path_report::entries_of(path).0;
            let runs = path_report::runs(path_report::shown(entries, threshold));
            let hidden = path_report::hidden_count(entries, threshold);
            let written = if error is Some && runs.len() > 0 {
                runs.len() - 1
            } else {
                runs.len() as int
            };
            let line = |i: int| items[i]->Line_0;
            &&& error == path_report::entries_of(path).1
            &&& items.len() == 7 + written + if error is None && hidden > 0 {
                2int
            } else {
                0
            }
            &&& forall|i: int| 0 <= i < 7 ==> #[trigger] items[i] is Line
            &&& line(0) == "  start     = offset from the start of the build"@
            &&& line(1) == "  total     = wall-clock time for this node"@
            &&& line(2)
                == "  off_path  = time that overlapped other work (did not extend the build)"@
            &&& line(3) == "  user      = the portion of the runtime you can actually optimize"@
            &&& line(4) == "  potential = build time you'd save if this node were instant"@
            &&& line(5).len() == 0
            &&& line(6) == text::right_aligned("start"@, 10) + " "@ + text::right_aligned(
                "total"@,
                10,
            ) + " "@ + text::right_aligned("off_path"@, 10) + " "@ + text::right_aligned(
                "user"@,
                10,
            ) + " "@ + text::right_aligned("potential"@, 10) + " "@ + "kind"@ + " "@ + "name"@
                + " "@ + "category"@ + " "@ + "identifier"@ + " "@ + "execution_kind"@
            &&& forall|k: int| 0 <= k < written ==> #[trigger] items[7 + k] == critical_path::row(
                runs[k],
            )
            &&& error is None && hidden > 0 ==> items[7 + written]
                == critical_path::OutputModel::Line(seq![]) && items[8 + written]
                == critical_path::OutputModel::Line(
                "(hid "@ + text::decimal(hidden) + " low-impact entries under "@
                    + fmt_duration::precise_text(threshold) + ", totaling "@
                    + fmt_duration::precise_text(path_report::hidden_total(entries, threshold))
                    + ")"@,
            )
        }),
{
}

/// The text of a length in whole microseconds, or nothing.
pub open spec fn micros(d: Option<nat>) -> Seq<char> {
    if d is Some {
        text::decimal(d->0 / 1_000)
    } else {
        seq![]
    }
}

/// The other formats have one item for each entry, whatever its impact: a line whose
/// columns stand between tabs, or the entry itself.
pub proof fn law_plain_reports(path: Seq<PathNode>, threshold: nat, i: int)
    requires
        0 <= i < path_report::entries_of(path).0.len(),
    ensures
        ({
            let entries = path_report::entries_of(path).0;
            let e = entries[i];
            let (lines, failure) = path_report::report(path, LogFormat::Tabulated, threshold);
            let (json, json_failure) = path_report::report(path, LogFormat::Json, threshold);
            let (csv, csv_failure) = path_report::report(path, LogFormat::Csv, threshold);
            let text_of = |s: Option<Seq<char>>|
                if s is Some {
                    s->0
                } else {
                    Seq::<char>::empty()
                };
            &&& failure == path_report::entries_of(path).1
            &&& json_failure == path_report::entries_of(path).1
            &&& csv_failure == path_report::entries_of(path).1
            &&& lines.len() == entries.len()
            &&& json.len() == entries.len()
            &&& csv.len() == entries.len()
            &&& json[i] == critical_path::OutputModel::Record(e)
            &&& csv[i] == critical_path::OutputModel::Record(e)
            &&& lines[i] == critical_path::OutputModel::Line(
                text::joined(
                    seq![
                        e.kind,
                        e.name,
                        text_of(e.category),
                        text_of(e.identifier),
                        text_of(e.execution_kind),
                        micros(e.total),
                        micros(e.user),
                        micros(e.potential),
                        micros(e.off_path),
                        text::decimal(e.start_offset as nat),
                    ],
                    "\t"@,
                ),
            )
        }),
{
    let e = path_report::entries_of(path).0[i];
    let category = text::or_empty(e.category);
    let identifier = text::or_empty(e.identifier);
    let execution_kind = text::or_empty(e.execution_kind);
    let start = text::decimal(e.start_offset as nat);
    lemma_tabbed(
        e.kind,
        e.name,
        category,
        identifier,
        execution_kind,
        micros(e.total),
        micros(e.user),
        micros(e.potential),
        micros(e.off_path),
        start,
    );
    assert(path_report::tabulated_text(e) == text::joined(
        seq![
            e.kind,
            e.name,
            category,
            identifier,
            execution_kind,
            micros(e.total),
            micros(e.user),
            micros(e.potential),
            micros(e.off_path),
            start,
        ],
        "\t"@,
    ));
}

proof fn lemma_joined_push(parts: Seq<Seq<char>>, part: Seq<char>, sep: Seq<char>)
    requires
        parts.len() > 0,
    ensures
        text::joined(parts.push(part), sep) == text::joined(parts, sep) + sep + part,
{
    assert(parts.push(part).drop_last() =~= parts);
}

proof fn lemma_tabbed(
    a: Seq<char>,
    b: Seq<char>,
    c: Seq<char>,
    d: Seq<char>,
    e: Seq<char>,
    f: Seq<char>,
    g: Seq<char>,
    h: Seq<char>,
    i: Seq<char>,
    j: Seq<char>,
)
    ensures
        text::joined(seq![a, b, c, d, e, f, g, h, i, j], "\t"@) == a + "\t"@ + b + "\t"@ + c
            + "\t"@ + d + "\t"@ + e + "\t"@ + f + "\t"@ + g + "\t"@ + h + "\t"@ + i + "\t"@ + j,
{
    let sep = "\t"@;
    lemma_joined_push(seq![a], b, sep);
    assert(seq![a].push(b) =~= seq![a, b]);
    lemma_joined_push(seq![a, b], c, sep);
    assert(seq![a, b].push(c) =~= seq![a, b, c]);
    lemma_joined_push(seq![a, b, c], d, sep);
    assert(seq![a, b, c].push(d) =~= seq![a, b, c, d]);
    lemma_joined_push(seq![a, b, c, d], e, sep);
    assert(seq![a, b, c, d].push(e) =~= seq![a, b, c, d, e]);
    lemma_joined_push(seq![a, b, c, d, e], f, sep);
    assert(seq![a, b, c, d, e].push(f) =~= seq![a, b, c, d, e, f]);
    lemma_joined_push(seq![a, b, c, d, e, f], g, sep);
    assert(seq![a, b, c, d, e, f].push(g) =~= seq![a, b, c, d, e, f, g]);
    lemma_joined_push(seq![a, b, c, d, e, f, g], h, sep);
    assert(seq![a, b, c, d, e, f, g].push(h) =~= seq![a, b, c, d, e, f, g, h]);
    lemma_joined_push(seq![a, b, c, d, e, f, g, h], i, sep);
    assert(seq![a, b, c, d, e, f, g, h].push(i) =~= seq![a, b, c, d, e, f, g, h, i]);
    lemma_joined_push(seq![a, b, c, d, e, f, g, h, i], j, sep);
    assert(seq![a, b, c, d, e, f, g, h, i].push(j) =~= seq![a, b, c, d, e, f, g, h, i, j]);
}

/// What an entry says is what its columns hold.
pub proof fn law_entries_say_what_they_hold(entry: CriticalPathEntry)
    ensures
        entry@.kind == entry.kind@,
        entry@.name == entry.name@,
        entry@.category is Some <==> entry.category is Some,
        entry.category matches Some(s) ==> entry@.category == Some(s@),
        entry@.identifier is Some <==> entry.identifier is Some,
        entry.identifier matches Some(s) ==> entry@.identifier == Some(s@),
        entry@.execution_kind is Some <==> entry.execution_kind is Some,
        entry.execution_kind matches Some(s) ==> entry@.execution_kind == Some(s@),
        entry@.total is Some <==> entry.total_duration.inner is Some,
        entry.total_duration.inner matches Some(d) ==> entry@.total == Some(d@),
        entry@.user is Some <==> entry.user_duration.inner is Some,
        entry.user_duration.inner matches Some(d) ==> entry@.user == Some(d@),
        entry@.potential is Some <==> entry.potential_improvement_duration.inner is Some,
        entry.potential_improvement_duration.inner matches Some(d) ==> entry@.potential == Some(
            d@,
        ),
        entry@.off_path is Some <==> entry.non_critical_path_time.inner is Some,
        entry.non_critical_path_time.inner matches Some(d) ==> entry@.off_path == Some(d@),
        entry@.start_offset == entry.start_offset,
{
}

/// A line is shown as it is. A row is shown as it is where colors are not shown or it has
/// none, and otherwise between the codes of its color and the one that ends it. A record has
/// no text.
pub proof fn law_items_in_text(item: OutputItem, colors: bool)
    ensures
        item matches OutputItem::Line(line) ==> item@.text(colors) == Some(line@),
        item is Record ==> item@.text(colors) is None,
        item matches OutputItem::Record(entry) ==> item@ == critical_path::OutputModel::Record(
            entry@,
        ),
        item matches OutputItem::Row { style, line } ==> {
            &&& item@.text(false) == Some(line@)
            &&& style is Normal ==> item@.text(true) == Some(line@)
            &&& style is Gray ==> item@.text(true) == Some("\x1b[38;5;8m"@ + line@ + "\x1b[0m"@)
            &&& style is Yellow ==> item@.text(true) == Some("\x1b[33m"@ + line@ + "\x1b[0m"@)
            &&& style is Red ==> item@.text(true) == Some("\x1b[31m"@ + line@ + "\x1b[0m"@)
            &&& style is BoldRed ==> item@.text(true) == Some(
                "\x1b[38;5;9m\x1b[1m"@ + line@ + "\x1b[0m"@,
            )
        },
{
}

/// The words for the two kinds of path.
pub proof fn law_path_titles()
    ensures
        PathKind::Critical.title() == "critical path"@,
        PathKind::Slowest.title() == "slowest path"@,
{
}

/// There is an error to report exactly if the report failed, and it is that of the report.
pub proof fn law_failures_are_reported(r: Result<(), PathError>)
    ensures
        r is Ok <==> path_report::error_of(r) is None,
        r matches Err(e) ==> path_report::error_of(r) == Some(e@),
        r matches Err(PathError::Display(e)) ==> path_report::error_of(r) == Some(
            path_report::PathErrorModel::Display(e@),
        ),
        r matches Err(PathError::InvalidDuration(e)) ==> path_report::error_of(r) == Some(
            path_report::PathErrorModel::InvalidDuration(e@),
        ),
{
}

} // verus!
