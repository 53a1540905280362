//! Reporting a path in one of the output formats.

use vstd::prelude::*;

use crate::critical_path;
use crate::critical_path::columns_text;
use crate::critical_path::CriticalPathEntry;
use crate::critical_path::OptionalDuration;
use crate::critical_path::OutputItem;
use crate::critical_path::PathNode;
use crate::critical_path::Run;
use crate::fmt_duration;
use crate::fmt_duration::fmt_duration_precise;
use crate::text;
use crate::text::push_decimal;
use crate::text::str_or_empty;
use crate::time::Duration;
use crate::time::MAX_DURATION_NANOS;

verus! {

/// How a path is reported.
#[derive(Copy, Clone, Debug, PartialEq, Eq)]
pub enum LogFormat {
    Readable,
    Tabulated,
    Json,
    Csv,
}

/// Why a path cannot be reported.
#[derive(Clone, Debug, PartialEq, Eq)]
pub enum PathError {
    /// A node cannot be shown.
    Display(String),
    /// A recorded duration is not one.
    InvalidDuration(String),
}

/// What a [`PathError`] says.
pub enum PathErrorModel {
    Display(Seq<char>),
    InvalidDuration(Seq<char>),
}

impl View for PathError {
    type V = PathErrorModel;

    open spec fn view(&self) -> PathErrorModel {
        match self {
            PathError::Display(e) => PathErrorModel::Display(e@),
            PathError::InvalidDuration(e) => PathErrorModel::InvalidDuration(e@),
        }
    }
}

impl PathError {
    /// The error in words.
    pub fn message(&self) -> (text: String)
        ensures
            text@ == match self@ {
                PathErrorModel::Display(e) => e,
                PathErrorModel::InvalidDuration(e) => e,
            },
    {
        match self {
            PathError::Display(e) => e.clone(),
            PathError::InvalidDuration(e) => e.clone(),
        }
    }
}

/// A recorded duration, missing or present, or why it is not one.
pub open spec fn recorded(d: Option<Result<Duration, String>>) -> Result<
    Option<nat>,
    PathErrorModel,
> {
    match d {
        None => Ok(None),
        Some(Ok(d)) => Ok(Some(d@)),
        Some(Err(e)) => Err(PathErrorModel::InvalidDuration(e@)),
    }
}

/// The entry of a node, nothing when the node is not shown, or why it cannot be
/// reported.
pub open spec fn entry_of(node: PathNode) -> Result<
    Option<critical_path::EntryModel>,
    PathErrorModel,
> {
    match node.display {
        Err(e) => Err(PathErrorModel::Display(e@)),
        Ok(None) => Ok(None),
        Ok(Some(display)) => match recorded(node.total_duration) {
            Err(e) => Err(e),
            Ok(total) => match recorded(node.user_duration) {
                Err(e) => Err(e),
                Ok(user) => match recorded(node.potential_improvement_duration) {
                    Err(e) => Err(e),
                    Ok(potential) => match recorded(node.non_critical_path_duration) {
                        Err(e) => Err(e),
                        Ok(off_path) => Ok(
                            Some(
                                critical_path::EntryModel {
                                    kind: display.kind@,
                                    name: display.name@,
                                    category: text::optional_view(display.category),
                                    identifier: text::optional_view(display.identifier),
                                    execution_kind: text::optional_view(display.execution_kind),
                                    total,
                                    user,
                                    potential,
                                    off_path,
                                    start_offset: match node.start_offset_ns {
                                        Some(ns) => (ns / 1_000) as u64,
                                        None => 0,
                                    },
                                },
                            ),
                        ),
                    },
                },
            },
        },
    }
}

/// The entries of the nodes, up to the first one that cannot be reported, and why it
/// cannot.
pub open spec fn entries_of(path: Seq<PathNode>) -> (
    Seq<critical_path::EntryModel>,
    Option<PathErrorModel>,
)
    decreases path.len(),
{
    if path.len() == 0 {
        (seq![], None)
    } else {
        let (entries, error) = entries_of(path.drop_last());
        if error is Some {
            (entries, error)
        } else {
            match entry_of(path.last()) {
                Err(e) => (entries, Some(e)),
                Ok(None) => (entries, None),
                Ok(Some(entry)) => (entries.push(entry), None),
            }
        }
    }
}

/// The entries whose impact reaches the threshold.
pub open spec fn shown(
    entries: Seq<critical_path::EntryModel>,
    threshold: nat,
) -> Seq<critical_path::EntryModel>
    decreases entries.len(),
{
    if entries.len() == 0 {
        seq![]
    } else {
        let rest = shown(entries.drop_last(), threshold);
        if entries.last().impact() < threshold {
            rest
        } else {
            rest.push(entries.last())
        }
    }
}

/// How many entries do not reach the threshold.
pub open spec fn hidden_count(entries: Seq<critical_path::EntryModel>, threshold: nat) -> nat
    decreases entries.len(),
{
    if entries.len() == 0 {
        0
    } else {
        hidden_count(entries.drop_last(), threshold) + if entries.last().impact() < threshold {
            1nat
        } else {
            0nat
        }
    }
}

/// The impact of the entries that do not reach the threshold, together.
pub open spec fn hidden_total(entries: Seq<critical_path::EntryModel>, threshold: nat) -> nat
    decreases entries.len(),
{
    if entries.len() == 0 {
        0
    } else {
        hidden_total(entries.drop_last(), threshold) + if entries.last().impact() < threshold {
            entries.last().impact()
        } else {
            0nat
        }
    }
}

/// The entries in runs: an entry belongs to the run before it if it can extend it,
/// and starts a run of its own otherwise.
pub open spec fn runs(entries: Seq<critical_path::EntryModel>) -> Seq<
    Seq<critical_path::EntryModel>,
>
    decreases entries.len(),
{
    if entries.len() == 0 {
        seq![]
    } else {
        let rest = runs(entries.drop_last());
        let entry = entries.last();
        if rest.len() > 0 && rest.last()[0].extends_to(entry) {
            rest.drop_last().push(rest.last().push(entry))
        } else {
            rest.push(seq![entry])
        }
    }
}

/// A row for each run.
pub open spec fn rows(runs: Seq<Seq<critical_path::EntryModel>>) -> Seq<
    critical_path::OutputModel,
> {
    runs.map_values(|run: Seq<critical_path::EntryModel>| critical_path::row(run))
}

/// What stands above the rows of the readable format: the meaning of the columns, an
/// empty line, and the names of the columns.
pub open spec fn head() -> Seq<critical_path::OutputModel> {
    seq![
        critical_path::OutputModel::Line("  start     = offset from the start of the build"@),
        critical_path::OutputModel::Line("  total     = wall-clock time for this node"@),
        critical_path::OutputModel::Line(
            "  off_path  = time that overlapped other work (did not extend the build)"@,
        ),
        critical_path::OutputModel::Line(
            "  user      = the portion of the runtime you can actually optimize"@,
        ),
        critical_path::OutputModel::Line(
            "  potential = build time you'd save if this node were instant"@,
        ),
        critical_path::OutputModel::Line(seq![]),
        critical_path::OutputModel::Line(
            critical_path::columns(
                seq!["start"@, "total"@, "off_path"@, "user"@, "potential"@],
                "kind"@,
                "name"@,
                "category"@,
                "identifier"@,
                "execution_kind"@,
            ),
        ),
    ]
}

/// What stands below the rows of the readable format, if entries are hidden.
pub open spec fn foot(count: nat, threshold: nat, total: nat) -> Seq<critical_path::OutputModel> {
    if count > 0 {
        seq![
            critical_path::OutputModel::Line(seq![]),
            critical_path::OutputModel::Line(
                "(hid "@ + text::decimal(count) + " low-impact entries under "@
                    + fmt_duration::precise_text(threshold) + ", totaling "@
                    + fmt_duration::precise_text(total) + ")"@,
            ),
        ]
    } else {
        seq![]
    }
}

/// The report in the readable format. Where a node cannot be reported, the last run
/// before it and what stands below the rows are left out.
pub open spec fn readable_report(
    entries: Seq<critical_path::EntryModel>,
    failed: bool,
    threshold: nat,
) -> Seq<critical_path::OutputModel> {
    let all = runs(shown(entries, threshold));
    if failed {
        head() + rows(
            if all.len() > 0 {
                all.drop_last()
            } else {
                all
            },
        )
    } else {
        head() + rows(all) + foot(
            hidden_count(entries, threshold),
            threshold,
            hidden_total(entries, threshold),
        )
    }
}

/// The line of an entry in the tabulated format.
pub open spec fn tabulated_text(entry: critical_path::EntryModel) -> Seq<char> {
    entry.kind + "\t"@ + entry.name + "\t"@ + text::or_empty(entry.category) + "\t"@
        + text::or_empty(entry.identifier) + "\t"@ + text::or_empty(
        entry.execution_kind,
    ) + "\t"@ + critical_path::micros_text(entry.total) + "\t"@ + critical_path::micros_text(
        entry.user,
    ) + "\t"@ + critical_path::micros_text(entry.potential) + "\t"@ + critical_path::micros_text(
        entry.off_path,
    ) + "\t"@ + text::decimal(entry.start_offset as nat)
}

/// What an entry adds to the report in the formats that have one row for each.
pub open spec fn entry_item(
    format: LogFormat,
    entry: critical_path::EntryModel,
) -> critical_path::OutputModel {
    if format is Tabulated {
        critical_path::OutputModel::Line(tabulated_text(entry))
    } else {
        critical_path::OutputModel::Record(entry)
    }
}

/// The report of a path, and why it ends early, if it does.
pub open spec fn report(path: Seq<PathNode>, format: LogFormat, threshold: nat) -> (
    Seq<critical_path::OutputModel>,
    Option<PathErrorModel>,
) {
    let (entries, error) = entries_of(path);
    if format is Readable {
        (readable_report(entries, error is Some, threshold), error)
    } else {
        (entries.map_values(|e: critical_path::EntryModel| entry_item(format, e)), error)
    }
}

/// Whether the sums in the readable format are durations.
pub open spec fn report_fits(path: Seq<PathNode>, threshold: nat) -> bool {
    let entries = entries_of(path).0;
    &&& forall|k: int|
        0 <= k < runs(shown(entries, threshold)).len() ==> critical_path::sums_fit(
            #[trigger] runs(shown(entries, threshold))[k],
        )
    &&& hidden_total(entries, threshold) <= MAX_DURATION_NANOS
}

/// Why a path could not be reported, if it could not.
pub open spec fn error_of(r: Result<(), PathError>) -> Option<PathErrorModel> {
    match r {
        Ok(()) => None,
        Err(e) => Some(e@),
    }
}

fn recorded_duration(d: &Option<Result<Duration, String>>) -> (r: Result<
    OptionalDuration,
    PathError,
>)
    ensures
        match recorded(*d) {
            Ok(n) => r matches Ok(o) && critical_path::nanos(o.inner) == n,
            Err(e) => r matches Err(error) && error@ == e,
        },
{
    let d: Option<Result<Duration, String>> = match d {
        None => None,
        Some(Ok(d)) => Some(Ok(*d)),
        Some(Err(e)) => Some(Err(e.clone())),
    };
    match OptionalDuration::new(d) {
        Ok(o) => Ok(o),
        Err(e) => Err(PathError::InvalidDuration(e)),
    }
}

fn cloned_text(s: &Option<String>) -> (r: Option<String>)
    ensures
        text::optional_view(r) == text::optional_view(*s),
{
    match s {
        Some(s) => Some(s.clone()),
        None => None,
    }
}

/// The entry of a node, nothing when the node is not shown, or why it cannot be
/// reported.
pub fn entry_from_node(node: &PathNode) -> (r: Result<Option<CriticalPathEntry>, PathError>)
    ensures
        match entry_of(*node) {
            Ok(None) => r matches Ok(None),
            Ok(Some(e)) => r matches Ok(Some(entry)) && entry@ == e,
            Err(e) => r matches Err(error) && error@ == e,
        },
{
    let display = match &node.display {
        Err(e) => return Err(PathError::Display(e.clone())),
        Ok(None) => return Ok(None),
        Ok(Some(display)) => display,
    };
    let total_duration: OptionalDuration = match recorded_duration(&node.total_duration) {
        Ok(d) => d,
        Err(e) => return Err(e),
    };
    let user_duration: OptionalDuration = match recorded_duration(&node.user_duration) {
        Ok(d) => d,
        Err(e) => return Err(e),
    };
    let potential_improvement_duration: OptionalDuration = match recorded_duration(
        &node.potential_improvement_duration,
    ) {
        Ok(d) => d,
        Err(e) => return Err(e),
    };
    let non_critical_path_time: OptionalDuration = match recorded_duration(
        &node.non_critical_path_duration,
    ) {
        Ok(d) => d,
        Err(e) => return Err(e),
    };
    let entry = CriticalPathEntry {
        kind: display.kind.clone(),
        name: display.name.clone(),
        category: cloned_text(&display.category),
        identifier: cloned_text(&display.identifier),
        execution_kind: cloned_text(&display.execution_kind),
        total_duration,
        user_duration,
        potential_improvement_duration,
        non_critical_path_time,
        start_offset: match node.start_offset_ns {
            Some(ns) => ns / 1_000,
            None => 0,
        },
    };
    assert(Some(entry@) == entry_of(*node)->Ok_0);
    Ok(Some(entry))
}

/// The line of an entry in the tabulated format.
pub fn tabulated_line(entry: &CriticalPathEntry) -> (line: String)
    ensures
        line@ == tabulated_text(entry@),
{
    let mut line: String = entry.kind.clone();
    line.append("\t");
    line.append(entry.name.as_str());
    line.append("\t");
    line.append(str_or_empty(&entry.category));
    line.append("\t");
    line.append(str_or_empty(&entry.identifier));
    line.append("\t");
    line.append(str_or_empty(&entry.execution_kind));
    line.append("\t");
    let total: String = entry.total_duration.to_text();
    line.append(total.as_str());
    line.append("\t");
    let user: String = entry.user_duration.to_text();
    line.append(user.as_str());
    line.append("\t");
    let potential: String = entry.potential_improvement_duration.to_text();
    line.append(potential.as_str());
    line.append("\t");
    let off_path: String = entry.non_critical_path_time.to_text();
    line.append(off_path.as_str());
    line.append("\t");
    push_decimal(&mut line, entry.start_offset as u128);
    line
}

fn push_line(out: &mut Vec<OutputItem>, line: String)
    ensures
        critical_path::items(final(out)@) == critical_path::items(old(out)@).push(
            critical_path::OutputModel::Line(line@),
        ),
{
    let ghost before = out@;
    let ghost view = line@;
    out.push(OutputItem::Line(line));
    assert(critical_path::items(out@) =~= critical_path::items(before).push(
        critical_path::OutputModel::Line(view),
    ));
}

/// What stands above the rows of the readable format.
fn push_head(out: &mut Vec<OutputItem>)
    ensures
        critical_path::items(final(out)@) == critical_path::items(old(out)@) + head(),
{
    push_line(out, "  start     = offset from the start of the build".to_owned());
    push_line(out, "  total     = wall-clock time for this node".to_owned());
    push_line(
        out,
        "  off_path  = time that overlapped other work (did not extend the build)".to_owned(),
    );
    push_line(
        out,
        "  user      = the portion of the runtime you can actually optimize".to_owned(),
    );
    push_line(out, "  potential = build time you'd save if this node were instant".to_owned());
    push_line(out, String::new());
    let durations: Vec<String> = vec![
        "start".to_owned(),
        "total".to_owned(),
        "off_path".to_owned(),
        "user".to_owned(),
        "potential".to_owned(),
    ];
    assert(text::views(durations@) =~= seq![
        "start"@,
        "total"@,
        "off_path"@,
        "user"@,
        "potential"@,
    ]);
    push_line(
        out,
        columns_text(
            &durations,
            "kind",
            "name",
            "category",
            "identifier",
            "execution_kind",
        ),
    );
    assert(critical_path::items(out@) =~= critical_path::items(old(out)@) + head());
}

/// What stands below the rows of the readable format, if entries are hidden.
fn push_foot(out: &mut Vec<OutputItem>, count: u64, threshold: Duration, total: Duration)
    ensures
        critical_path::items(final(out)@) == critical_path::items(old(out)@) + foot(
            count as nat,
            threshold@,
            total@,
        ),
{
    if count > 0 {
        push_line(out, String::new());
        let mut line: String = "(hid ".to_owned();
        push_decimal(&mut line, count as u128);
        line.append(" low-impact entries under ");
        let under: String = fmt_duration_precise(threshold);
        line.append(under.as_str());
        line.append(", totaling ");
        let sum: String = fmt_duration_precise(total);
        line.append(sum.as_str());
        line.append(")");
        push_line(out, line);
    }
    assert(critical_path::items(out@) =~= critical_path::items(old(out)@) + foot(
        count as nat,
        threshold@,
        total@,
    ));
}

/// Whether each sequence begins as the one at the same place in `b`.
spec fn begin_alike(
    a: Seq<Seq<critical_path::EntryModel>>,
    b: Seq<Seq<critical_path::EntryModel>>,
) -> bool {
    &&& a.len() <= b.len()
    &&& forall|k: int|
        #![trigger a[k]]
        0 <= k < a.len() ==> a[k].len() <= b[k].len() && a[k] == b[k].take(a[k].len() as int)
}

proof fn lemma_runs_nonempty(entries: Seq<critical_path::EntryModel>)
    ensures
        forall|k: int| 0 <= k < runs(entries).len() ==> (#[trigger] runs(entries)[k]).len() > 0,
        entries.len() > 0 ==> runs(entries).len() > 0,
    decreases entries.len(),
{
    if entries.len() > 0 {
        let rest = runs(entries.drop_last());
        let all = runs(entries);
        lemma_runs_nonempty(entries.drop_last());
        assert forall|k: int| 0 <= k < all.len() implies (#[trigger] all[k]).len() > 0 by {
            if k < rest.len() - 1 {
                assert(all[k] == rest[k]);
            } else if k < rest.len() {
                assert(rest[k].len() > 0);
            }
        }
    }
}

/// The runs of a part of the entries begin the runs of all of them.
proof fn lemma_runs_begin_alike(entries: Seq<critical_path::EntryModel>, n: int)
    requires
        0 <= n <= entries.len(),
    ensures
        begin_alike(runs(entries.take(n)), runs(entries)),
    decreases entries.len(),
{
    if n == entries.len() {
        assert(entries.take(n) =~= entries);
        assert forall|k: int|
            #![trigger runs(entries)[k]]
            0 <= k < runs(entries).len() implies runs(entries)[k] == runs(entries)[k].take(
            runs(entries)[k].len() as int,
        ) by {
            assert(runs(entries)[k] =~= runs(entries)[k].take(runs(entries)[k].len() as int));
        }
    } else {
        let init = entries.drop_last();
        assert(init.take(n) =~= entries.take(n));
        lemma_runs_begin_alike(init, n);
        let a = runs(entries.take(n));
        let b = runs(init);
        let c = runs(entries);
        assert forall|k: int|
            #![trigger a[k]]
            0 <= k < a.len() implies a[k].len() <= c[k].len() && a[k] == c[k].take(
            a[k].len() as int,
        ) by {
            if k < b.len() - 1 {
                assert(c[k] == b[k]);
            } else {
                assert(c[k].take(a[k].len() as int) =~= b[k].take(a[k].len() as int));
            }
        }
    }
}

proof fn lemma_sum_grows(ds: Seq<Option<nat>>, n: int)
    requires
        0 <= n <= ds.len(),
    ensures
        critical_path::or_zero(critical_path::sum_present(ds.take(n))) <= critical_path::or_zero(
            critical_path::sum_present(ds),
        ),
    decreases ds.len(),
{
    if n == ds.len() {
        assert(ds.take(n) =~= ds);
    } else {
        assert(ds.drop_last().take(n) =~= ds.take(n));
        lemma_sum_grows(ds.drop_last(), n);
    }
}

/// The sums over the beginning of a run are durations if those over the run are.
proof fn lemma_sums_fit_take(run: Seq<critical_path::EntryModel>, n: int)
    requires
        0 <= n <= run.len(),
        critical_path::sums_fit(run),
    ensures
        critical_path::sums_fit(run.take(n)),
{
    assert(run.take(n).map_values(|e: critical_path::EntryModel| e.total) =~= run.map_values(
        |e: critical_path::EntryModel| e.total,
    ).take(n));
    lemma_sum_grows(run.map_values(|e: critical_path::EntryModel| e.total), n);
    assert(run.take(n).map_values(|e: critical_path::EntryModel| e.off_path) =~= run.map_values(
        |e: critical_path::EntryModel| e.off_path,
    ).take(n));
    lemma_sum_grows(run.map_values(|e: critical_path::EntryModel| e.off_path), n);
    assert(run.take(n).map_values(|e: critical_path::EntryModel| e.user) =~= run.map_values(
        |e: critical_path::EntryModel| e.user,
    ).take(n));
    lemma_sum_grows(run.map_values(|e: critical_path::EntryModel| e.user), n);
    assert(run.take(n).map_values(|e: critical_path::EntryModel| e.potential) =~= run.map_values(
        |e: critical_path::EntryModel| e.potential,
    ).take(n));
    lemma_sum_grows(run.map_values(|e: critical_path::EntryModel| e.potential), n);
}

/// The entries of a part of the path begin the entries of the path; an error in the
/// part is the error of the path.
proof fn lemma_entries_begin_alike(path: Seq<PathNode>, n: int, threshold: nat)
    requires
        0 <= n <= path.len(),
    ensures
        ({
            let part = entries_of(path.take(n)).0;
            let all = entries_of(path).0;
            &&& part.len() <= n
            &&& part.len() <= all.len()
            &&& part == all.take(part.len() as int)
            &&& shown(part, threshold).len() <= shown(all, threshold).len()
            &&& shown(part, threshold) == shown(all, threshold).take(
                shown(part, threshold).len() as int,
            )
            &&& hidden_total(part, threshold) <= hidden_total(all, threshold)
            &&& entries_of(path.take(n)).1 is Some ==> entries_of(path) == entries_of(
                path.take(n),
            )
        }),
    decreases path.len(),
{
    let part = entries_of(path.take(n)).0;
    let all = entries_of(path).0;
    if n == path.len() {
        assert(path.take(n) =~= path);
        assert(part =~= all.take(part.len() as int));
        assert(shown(part, threshold) =~= shown(all, threshold).take(
            shown(part, threshold).len() as int,
        ));
        if n > 0 {
            assert(path.drop_last().take(n - 1) =~= path.drop_last());
            lemma_entries_begin_alike(path.drop_last(), n - 1, threshold);
        }
    } else {
        let init = path.drop_last();
        assert(init.take(n) =~= path.take(n));
        lemma_entries_begin_alike(init, n, threshold);
        let before = entries_of(init).0;
        if all.len() > before.len() {
            assert(all.drop_last() =~= before);
        }
        assert(part =~= all.take(part.len() as int));
        assert(shown(part, threshold) =~= shown(all, threshold).take(
            shown(part, threshold).len() as int,
        ));
    }
}

/// One more entry, if it is shown, keeps the sums within what the whole report needs.
proof fn lemma_next_fits(path: Seq<PathNode>, n: int, threshold: nat)
    requires
        0 <= n < path.len(),
        report_fits(path, threshold),
    ensures
        forall|k: int|
            0 <= k < runs(shown(entries_of(path.take(n + 1)).0, threshold)).len()
                ==> critical_path::sums_fit(
                #[trigger] runs(shown(entries_of(path.take(n + 1)).0, threshold))[k],
            ),
        hidden_total(entries_of(path.take(n + 1)).0, threshold) <= MAX_DURATION_NANOS,
{
    lemma_entries_begin_alike(path, n + 1, threshold);
    let part = shown(entries_of(path.take(n + 1)).0, threshold);
    let all = shown(entries_of(path).0, threshold);
    lemma_runs_begin_alike(all, part.len() as int);
    assert forall|k: int| 0 <= k < runs(part).len() implies critical_path::sums_fit(
        #[trigger] runs(part)[k],
    ) by {
        assert(critical_path::sums_fit(runs(all)[k]));
        lemma_sums_fit_take(runs(all)[k], runs(part)[k].len() as int);
    }
}

/// No run is longer than the entries it is taken from.
proof fn lemma_run_len(entries: Seq<critical_path::EntryModel>)
    ensures
        forall|k: int|
            0 <= k < runs(entries).len() ==> (#[trigger] runs(entries)[k]).len()
                <= entries.len(),
    decreases entries.len(),
{
    if entries.len() > 0 {
        let rest = runs(entries.drop_last());
        let all = runs(entries);
        lemma_run_len(entries.drop_last());
        assert forall|k: int| 0 <= k < all.len() implies (#[trigger] all[k]).len()
            <= entries.len() by {
            if k < rest.len() - 1 {
                assert(all[k] == rest[k]);
            } else if k < rest.len() {
                assert(rest[k].len() <= entries.len() - 1);
            }
        }
    }
}

proof fn lemma_shown_len(entries: Seq<critical_path::EntryModel>, threshold: nat)
    ensures
        shown(entries, threshold).len() + hidden_count(entries, threshold) == entries.len(),
    decreases entries.len(),
{
    if entries.len() > 0 {
        lemma_shown_len(entries.drop_last(), threshold);
    }
}

/// All runs but the last, which has not been written.
spec fn written_runs(all: Seq<Seq<critical_path::EntryModel>>) -> Seq<
    Seq<critical_path::EntryModel>,
> {
    if all.len() > 0 {
        all.drop_last()
    } else {
        all
    }
}

/// The last run, which has not been written.
spec fn last_run(all: Seq<Seq<critical_path::EntryModel>>) -> Option<
    Seq<critical_path::EntryModel>,
> {
    if all.len() > 0 {
        Some(all.last())
    } else {
        None
    }
}

/// Reports a path in the readable format.
fn log_readable(path: &Vec<PathNode>, threshold: Duration, out: &mut Vec<OutputItem>) -> (r: Result<
    (),
    PathError,
>)
    requires
        report_fits(path@, threshold@),
    ensures
        critical_path::items(final(out)@) == critical_path::items(old(out)@) + report(
            path@,
            LogFormat::Readable,
            threshold@,
        ).0,
        error_of(r) == entries_of(path@).1,
{
    let ghost start = critical_path::items(out@);
    let ghost limit = threshold@;
    push_head(out);
    let mut count: u64 = 0;
    let mut total: Duration = Duration::zero();
    let mut run: Run = Run::new();
    let mut i: usize = 0;
    assert(path@.take(0) =~= Seq::<PathNode>::empty());
    assert(rows(written_runs(runs(shown(entries_of(path@.take(0)).0, limit)))) =~= Seq::<
        critical_path::OutputModel,
    >::empty());
    while i < path.len()
        invariant
            i <= path.len(),
            limit == threshold@,
            start == critical_path::items(old(out)@),
            report_fits(path@, limit),
            run.well_formed(),
            entries_of(path@.take(i as int)).1 is None,
            count as nat == hidden_count(entries_of(path@.take(i as int)).0, limit),
            total@ == hidden_total(entries_of(path@.take(i as int)).0, limit),
            run@ == last_run(runs(shown(entries_of(path@.take(i as int)).0, limit))),
            critical_path::items(out@) == start + head() + rows(
                written_runs(runs(shown(entries_of(path@.take(i as int)).0, limit))),
            ),
        decreases path.len() - i,
    {
        let ghost part = path@.take(i as int);
        let ghost next = path@.take(i + 1);
        let ghost entries = entries_of(part).0;
        let ghost all = runs(shown(entries, limit));
        proof {
            assert(next.drop_last() =~= part);
            assert(next.last() == path@[i as int]);
            lemma_entries_begin_alike(path@, i as int, limit);
            lemma_entries_begin_alike(path@, i + 1, limit);
            lemma_next_fits(path@, i as int, limit);
            lemma_shown_len(entries, limit);
            lemma_run_len(shown(entries, limit));
            lemma_runs_nonempty(shown(entries, limit));
        }
        match entry_from_node(&path[i]) {
            Err(e) => {
                assert(critical_path::items(out@) =~= start + report(
                    path@,
                    LogFormat::Readable,
                    limit,
                ).0);
                return Err(e);
            },
            Ok(None) => {},
            Ok(Some(entry)) => {
                let ghost e = entry@;
                assert(entries_of(next).0.drop_last() =~= entries);
                let impact: Duration = entry.impact();
                if impact.is_shorter_than(&threshold) {
                    count = count + 1;
                    total = total.plus(impact);
                } else {
                    let ghost pushed = shown(entries_of(next).0, limit);
                    let ghost after = runs(pushed);
                    let ghost before = critical_path::items(out@);
                    proof {
                        assert(pushed.drop_last() =~= shown(entries, limit));
                        assert(after.len() > 0 && critical_path::sums_fit(
                            after[after.len() - 1],
                        ));
                    }
                    run.push(out, entry);
                    proof {
                        if all.len() > 0 && all.last()[0].extends_to(e) {
                            assert(after.drop_last() =~= all.drop_last());
                        } else {
                            assert(after.drop_last() =~= all);
                            assert(rows(all) =~= rows(written_runs(all))
                                + critical_path::pending_row(last_run(all)));
                            assert(critical_path::items(out@) =~= start + head() + rows(all));
                        }
                    }
                }
            },
        }
        i = i + 1;
    }
    assert(path@.take(i as int) =~= path@);
    let ghost all = runs(shown(entries_of(path@).0, limit));
    run.flush(out);
    assert(rows(all) =~= rows(written_runs(all)) + critical_path::pending_row(last_run(all)));
    push_foot(out, count, threshold, total);
    assert(critical_path::items(out@) =~= start + report(path@, LogFormat::Readable, limit).0);
    Ok(())
}

/// Reports a path in a format that has one row for each entry.
fn log_entries(path: &Vec<PathNode>, format: LogFormat, out: &mut Vec<OutputItem>) -> (r: Result<
    (),
    PathError,
>)
    requires
        !(format is Readable),
    ensures
        critical_path::items(final(out)@) == critical_path::items(old(out)@) + report(
            path@,
            format,
            0,
        ).0,
        error_of(r) == entries_of(path@).1,
{
    let ghost start = critical_path::items(out@);
    let ghost shape = |e: critical_path::EntryModel| entry_item(format, e);
    let mut i: usize = 0;
    assert(path@.take(0) =~= Seq::<PathNode>::empty());
    assert(start =~= start + entries_of(path@.take(0)).0.map_values(shape));
    while i < path.len()
        invariant
            i <= path.len(),
            !(format is Readable),
            start == critical_path::items(old(out)@),
            shape == (|e: critical_path::EntryModel| entry_item(format, e)),
            entries_of(path@.take(i as int)).1 is None,
            critical_path::items(out@) == start + entries_of(
                path@.take(i as int),
            ).0.map_values(shape),
        decreases path.len() - i,
    {
        let ghost part = path@.take(i as int);
        let ghost next = path@.take(i + 1);
        let ghost before = out@;
        proof {
            assert(next.drop_last() =~= part);
            assert(next.last() == path@[i as int]);
            lemma_entries_begin_alike(path@, i + 1, 0);
        }
        match entry_from_node(&path[i]) {
            Err(e) => {
                return Err(e);
            },
            Ok(None) => {},
            Ok(Some(entry)) => {
                let ghost e = entry@;
                let item: OutputItem = match format {
                    LogFormat::Tabulated => OutputItem::Line(tabulated_line(&entry)),
                    _ => OutputItem::Record(entry),
                };
                assert(item@ == entry_item(format, e));
                out.push(item);
                assert(critical_path::items(out@) =~= critical_path::items(before).push(
                    entry_item(format, e),
                ));
                assert(entries_of(next).0.map_values(shape) =~= entries_of(
                    part,
                ).0.map_values(shape).push(entry_item(format, e)));
            },
        }
        i = i + 1;
    }
    assert(path@.take(i as int) =~= path@);
    Ok(())
}

/// Reports a path. `threshold` hides entries in the readable format alone. The report
/// ends at the first node that cannot be reported.
pub fn log_critical_path(
    path: &Vec<PathNode>,
    format: LogFormat,
    threshold: Duration,
    out: &mut Vec<OutputItem>,
) -> (r: Result<(), PathError>)
    requires
        format is Readable ==> report_fits(path@, threshold@),
    ensures
        critical_path::items(final(out)@) == critical_path::items(old(out)@) + report(
            path@,
            format,
            threshold@,
        ).0,
        error_of(r) == report(path@, format, threshold@).1,
{
    match format {
        LogFormat::Readable => log_readable(path, threshold, out),
        _ => log_entries(path, format, out),
    }
}

} // verus!
