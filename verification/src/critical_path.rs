//! The report of a build's critical path.
//!
//! In the readable format, consecutive equivalent entries are collapsed into one row
//! with summed durations, and entries of little impact can be hidden. The other
//! formats have one row for each entry.

use vstd::prelude::*;

use crate::fmt_duration;
use crate::fmt_duration::fmt_duration_precise;
use crate::text;
use crate::text::join;
use crate::text::push_decimal;
use crate::text::push_right_aligned;
use crate::text::str_or_empty;
use crate::time::Duration;
use crate::time::MAX_DURATION_NANOS;

verus! {

/// Which path is reported.
#[derive(Copy, Clone, Debug, PartialEq, Eq)]
pub enum PathKind {
    /// The longest chain of dependencies, which bounds the build time from below.
    Critical,
    /// The longest path that was taken, with the overhead of the build.
    Slowest,
}

impl PathKind {
    pub open spec fn title(self) -> Seq<char> {
        match self {
            PathKind::Critical => "critical path"@,
            PathKind::Slowest => "slowest path"@,
        }
    }

    /// The path in words.
    pub fn name(self) -> (name: &'static str)
        ensures
            name@ == self.title(),
    {
        match self {
            PathKind::Critical => "critical path",
            PathKind::Slowest => "slowest path",
        }
    }

    /// Of the two paths of a build, the one that is shown.
    pub fn pick<T>(self, critical: T, slowest: T) -> (path: T)
        ensures
            path == match self {
                PathKind::Critical => critical,
                PathKind::Slowest => slowest,
            },
    {
        match self {
            PathKind::Critical => critical,
            PathKind::Slowest => slowest,
        }
    }

    /// The line above the report of the build with the given command line.
    pub fn heading(self, command_line: &str) -> (line: String)
        ensures
            line@ == "Showing "@ + self.title() + " from: "@ + command_line@,
    {
        let mut line: String = "Showing ".to_owned();
        line.append(self.name());
        line.append(" from: ");
        line.append(command_line);
        line
    }
}

/// A duration that may be missing.
#[derive(Copy, Clone, Debug, PartialEq, Eq)]
pub struct OptionalDuration {
    pub inner: Option<Duration>,
}

/// The length of a duration that may be missing.
pub open spec fn nanos(d: Option<Duration>) -> Option<nat> {
    match d {
        Some(d) => Some(d@),
        None => None,
    }
}

/// A length in whole microseconds, or nothing.
pub open spec fn micros_text(d: Option<nat>) -> Seq<char> {
    match d {
        Some(n) => text::decimal(n / 1_000),
        None => seq![],
    }
}

impl OptionalDuration {
    /// The duration, if there is one, or why it is not one.
    pub fn new<E>(d: Option<Result<Duration, E>>) -> (r: Result<OptionalDuration, E>)
        ensures
            match d {
                None => r == Ok::<OptionalDuration, E>(OptionalDuration { inner: None }),
                Some(Ok(v)) => r == Ok::<OptionalDuration, E>(OptionalDuration { inner: Some(v) }),
                Some(Err(e)) => r == Err::<OptionalDuration, E>(e),
            },
    {
        match d {
            None => Ok(OptionalDuration { inner: None }),
            Some(Ok(v)) => Ok(OptionalDuration { inner: Some(v) }),
            Some(Err(e)) => Err(e),
        }
    }

    /// The duration in whole microseconds, if there is one.
    pub fn micros(&self) -> (n: Option<u128>)
        ensures
            n is Some <==> self.inner is Some,
            n matches Some(m) ==> m == self.inner->0@ / 1_000,
    {
        match self.inner {
            Some(d) => Some(d.as_micros()),
            None => None,
        }
    }

    /// The duration in whole microseconds, or nothing.
    pub fn to_text(&self) -> (out: String)
        ensures
            out@ == micros_text(nanos(self.inner)),
    {
        let mut out = String::new();
        if let Some(d) = self.inner {
            push_decimal(&mut out, d.as_micros());
        }
        out
    }
}

impl Default for OptionalDuration {
    fn default() -> (d: OptionalDuration)
        ensures
            d.inner is None,
    {
        OptionalDuration { inner: None }
    }
}

/// A node of the path, as it was recorded.
pub struct PathNode {
    /// How the node is shown, nothing when it is not shown, or why it cannot be.
    pub display: Result<Option<NodeDisplay>, String>,
    pub total_duration: Option<Result<Duration, String>>,
    pub user_duration: Option<Result<Duration, String>>,
    pub potential_improvement_duration: Option<Result<Duration, String>>,
    pub non_critical_path_duration: Option<Result<Duration, String>>,
    pub start_offset_ns: Option<u64>,
}

/// How a node is shown.
pub struct NodeDisplay {
    pub kind: String,
    pub name: String,
    pub category: Option<String>,
    pub identifier: Option<String>,
    pub execution_kind: Option<String>,
}

/// One entry of the report.
pub struct CriticalPathEntry {
    /// The kind of the node, such as `action` or `analysis`.
    pub kind: String,
    /// What the node is about; empty if it has no name.
    pub name: String,
    pub category: Option<String>,
    pub identifier: Option<String>,
    /// How an action was executed.
    pub execution_kind: Option<String>,
    /// How long the node took.
    pub total_duration: OptionalDuration,
    /// The part that the user can improve.
    pub user_duration: OptionalDuration,
    /// How much faster the node can get before it leaves the path.
    pub potential_improvement_duration: OptionalDuration,
    /// The part that was spent off the path.
    pub non_critical_path_time: OptionalDuration,
    /// The start of the node in microseconds from the start of the build.
    pub start_offset: u64,
}

/// What a [`CriticalPathEntry`] says. Durations are in nanoseconds.
#[verifier::ext_equal]
pub struct EntryModel {
    pub kind: Seq<char>,
    pub name: Seq<char>,
    pub category: Option<Seq<char>>,
    pub identifier: Option<Seq<char>>,
    pub execution_kind: Option<Seq<char>>,
    pub total: Option<nat>,
    pub user: Option<nat>,
    pub potential: Option<nat>,
    pub off_path: Option<nat>,
    pub start_offset: u64,
}

impl View for CriticalPathEntry {
    type V = EntryModel;

    open spec fn view(&self) -> EntryModel {
        EntryModel {
            kind: self.kind@,
            name: self.name@,
            category: text::optional_view(self.category),
            identifier: text::optional_view(self.identifier),
            execution_kind: text::optional_view(self.execution_kind),
            total: nanos(self.total_duration.inner),
            user: nanos(self.user_duration.inner),
            potential: nanos(self.potential_improvement_duration.inner),
            off_path: nanos(self.non_critical_path_time.inner),
            start_offset: self.start_offset,
        }
    }
}

/// A length, zero if it is missing.
pub open spec fn or_zero(d: Option<nat>) -> nat {
    match d {
        Some(n) => n,
        None => 0,
    }
}

/// The larger of two lengths.
pub open spec fn larger(a: nat, b: nat) -> nat {
    if a < b {
        b
    } else {
        a
    }
}

impl EntryModel {
    /// The largest of the time that the entry took, the time it spent off the path and
    /// the time it could save.
    pub open spec fn impact(self) -> nat {
        larger(larger(or_zero(self.total), or_zero(self.off_path)), or_zero(self.potential))
    }

    /// Whether two entries differ in their timing alone.
    pub open spec fn same_identity(self, other: EntryModel) -> bool {
        &&& self.kind == other.kind
        &&& self.name == other.name
        &&& self.category == other.category
        &&& self.identifier == other.identifier
        &&& self.execution_kind == other.execution_kind
    }

    /// Whether `entry` belongs to a run that starts with this entry: both wait, or
    /// they differ in their timing alone.
    pub open spec fn extends_to(self, entry: EntryModel) -> bool {
        (self.kind == "waiting"@ && entry.kind == "waiting"@) || self.same_identity(entry)
    }
}

/// Whether two optional strings are equal.
fn same_optional(a: &Option<String>, b: &Option<String>) -> (same: bool)
    ensures
        same == (text::optional_view(*a) == text::optional_view(*b)),
{
    match (a, b) {
        (Some(x), Some(y)) => *x == *y,
        (None, None) => true,
        _ => false,
    }
}

/// The longer of a span and one that may be missing.
fn longer(a: Duration, b: Option<Duration>) -> (d: Duration)
    ensures
        d@ == larger(a@, or_zero(nanos(b))),
{
    match b {
        Some(b) => {
            if a.is_shorter_than(&b) {
                b
            } else {
                a
            }
        },
        None => a,
    }
}

impl CriticalPathEntry {
    /// The largest of the time that the entry took, the time it spent off the path and
    /// the time it could save.
    pub fn impact(&self) -> (d: Duration)
        ensures
            d@ == self@.impact(),
    {
        let d: Duration = longer(Duration::zero(), self.total_duration.inner);
        let d: Duration = longer(d, self.non_critical_path_time.inner);
        longer(d, self.potential_improvement_duration.inner)
    }

    /// Whether two entries differ in their timing alone. Nodes with different names
    /// keep rows of their own, so that one still sees which of them is slow.
    pub fn same_identity(&self, other: &CriticalPathEntry) -> (same: bool)
        ensures
            same == self@.same_identity(other@),
    {
        self.kind == other.kind && self.name == other.name && same_optional(
            &self.category,
            &other.category,
        ) && same_optional(&self.identifier, &other.identifier) && same_optional(
            &self.execution_kind,
            &other.execution_kind,
        )
    }
}

/// Whether `entry` belongs to a run that starts with `first`.
pub fn can_extend(first: &CriticalPathEntry, entry: &CriticalPathEntry) -> (b: bool)
    ensures
        b == first@.extends_to(entry@),
{
    let waiting: String = "waiting".to_owned();
    if first.kind == waiting && entry.kind == waiting {
        true
    } else {
        first.same_identity(entry)
    }
}

/// The sum of the lengths that are present; missing if none is.
pub open spec fn sum_present(ds: Seq<Option<nat>>) -> Option<nat>
    decreases ds.len(),
{
    if ds.len() == 0 {
        None
    } else {
        match ds.last() {
            Some(n) => Some(or_zero(sum_present(ds.drop_last())) + n),
            None => sum_present(ds.drop_last()),
        }
    }
}

/// Adds a duration to a sum, which stays missing until the first one is added.
pub fn add_opt(acc: &mut Option<Duration>, v: Option<Duration>)
    requires
        or_zero(nanos(*old(acc))) + or_zero(nanos(v)) <= MAX_DURATION_NANOS,
    ensures
        nanos(*final(acc)) == match nanos(v) {
            Some(n) => Some(or_zero(nanos(*old(acc))) + n),
            None => nanos(*old(acc)),
        },
{
    if let Some(v) = v {
        let sum: Duration = match *acc {
            Some(a) => a,
            None => Duration::zero(),
        };
        *acc = Some(sum.plus(v));
    }
}

/// A length in readable units, or nothing.
pub open spec fn readable_text(d: Option<nat>) -> Seq<char> {
    match d {
        Some(n) => fmt_duration::precise_text(n),
        None => seq![],
    }
}

/// A duration in readable units, or nothing.
pub fn fmt_opt(d: Option<Duration>) -> (out: String)
    ensures
        out@ == readable_text(nanos(d)),
{
    match d {
        Some(d) => fmt_duration_precise(d),
        None => String::new(),
    }
}

/// How a row is painted.
#[derive(Copy, Clone, Debug, PartialEq, Eq)]
pub enum RowStyle {
    Gray,
    Normal,
    Yellow,
    Red,
    BoldRed,
}

/// The style for a row that could save the given time, in nanoseconds.
pub open spec fn style_for(potential: nat) -> RowStyle {
    if potential < 100_000_000 {
        RowStyle::Gray
    } else if potential < 1_000_000_000 {
        RowStyle::Normal
    } else if potential < 5_000_000_000 {
        RowStyle::Yellow
    } else if potential < 10_000_000_000 {
        RowStyle::Red
    } else {
        RowStyle::BoldRed
    }
}

/// The style for a row that could save the given time.
pub fn row_style(potential: Duration) -> (style: RowStyle)
    ensures
        style == style_for(potential@),
{
    if potential.is_shorter_than(&Duration::from_millis(100)) {
        RowStyle::Gray
    } else if potential.is_shorter_than(&Duration::from_secs(1)) {
        RowStyle::Normal
    } else if potential.is_shorter_than(&Duration::from_secs(5)) {
        RowStyle::Yellow
    } else if potential.is_shorter_than(&Duration::from_secs(10)) {
        RowStyle::Red
    } else {
        RowStyle::BoldRed
    }
}

/// The escape codes that switch a style on.
pub open spec fn style_codes(style: RowStyle) -> Seq<char> {
    match style {
        RowStyle::Gray => "\x1b[38;5;8m"@,
        RowStyle::Normal => seq![],
        RowStyle::Yellow => "\x1b[33m"@,
        RowStyle::Red => "\x1b[31m"@,
        RowStyle::BoldRed => "\x1b[38;5;9m\x1b[1m"@,
    }
}

/// The line in the given style, or the bare line where colors are not shown.
pub open spec fn painted(style: RowStyle, line: Seq<char>, colors: bool) -> Seq<char> {
    if colors && style != RowStyle::Normal {
        style_codes(style) + line + "\x1b[0m"@
    } else {
        line
    }
}

/// Whether standard output shows colors.
///
/// Trusted: `console::colors_enabled`. Its answer depends on the terminal and the
/// environment, so nothing is stated of it.
#[verifier::external_body]
fn colors_shown() -> bool {
    console::colors_enabled()
}

/// The line in the given style, or the bare line where colors are not shown.
///
/// Trusted: a `console::StyledObject` whose styling is forced on or off displays its
/// value between the escape codes of its style and the code that resets them, or by
/// itself where the styling is off or the style is empty.
#[verifier::external_body]
fn paint(style: RowStyle, line: &str, colors: bool) -> (out: String)
    ensures
        out@ == painted(style, line@, colors),
{
    let plain = console::Style::new();
    let style = match style {
        RowStyle::Gray => plain.black().bright(),
        RowStyle::Normal => plain,
        RowStyle::Yellow => plain.yellow(),
        RowStyle::Red => plain.red(),
        RowStyle::BoldRed => plain.red().bright().bold(),
    };
    style.force_styling(colors).apply_to(line).to_string()
}

/// A piece of the report.
pub enum OutputItem {
    /// A line of text.
    Line(String),
    /// A line of text that is painted.
    Row { style: RowStyle, line: String },
    /// An entry that is to be serialized.
    Record(CriticalPathEntry),
}

/// What an [`OutputItem`] says.
pub enum OutputModel {
    Line(Seq<char>),
    Row { style: RowStyle, line: Seq<char> },
    Record(EntryModel),
}

impl View for OutputItem {
    type V = OutputModel;

    open spec fn view(&self) -> OutputModel {
        match self {
            OutputItem::Line(line) => OutputModel::Line(line@),
            OutputItem::Row { style, line } => OutputModel::Row { style: *style, line: line@ },
            OutputItem::Record(entry) => OutputModel::Record(entry@),
        }
    }
}

impl OutputModel {
    /// The line, painted where colors are shown. An entry that is to be serialized has
    /// none.
    pub open spec fn text(self, colors: bool) -> Option<Seq<char>> {
        match self {
            OutputModel::Line(line) => Some(line),
            OutputModel::Row { style, line } => Some(painted(style, line, colors)),
            OutputModel::Record(_) => None,
        }
    }
}

/// What the pieces of a report say.
pub open spec fn items(out: Seq<OutputItem>) -> Seq<OutputModel> {
    out.map_values(|o: OutputItem| o@)
}

impl OutputItem {
    /// The line, painted where standard output shows colors. An entry that is to be
    /// serialized has no line.
    pub fn to_text(&self) -> (out: Option<String>)
        ensures
            exists|colors: bool| text::optional_view(out) == #[trigger] self@.text(colors),
    {
        let colors: bool = colors_shown();
        self.to_text_in(colors)
    }

    /// The line, painted if `colors` says so. An entry that is to be serialized has no
    /// line.
    pub fn to_text_in(&self, colors: bool) -> (out: Option<String>)
        ensures
            text::optional_view(out) == self@.text(colors),
    {
        match self {
            OutputItem::Line(line) => Some(line.clone()),
            OutputItem::Row { style, line } => Some(paint(*style, line.as_str(), colors)),
            OutputItem::Record(_) => None,
        }
    }
}

/// The distinct names in a run, in the order in which they come first.
pub open spec fn distinct_names(run: Seq<EntryModel>) -> Seq<Seq<char>>
    decreases run.len(),
{
    if run.len() == 0 {
        seq![]
    } else {
        let names = distinct_names(run.drop_last());
        if names.contains(run.last().name) {
            names
        } else {
            names.push(run.last().name)
        }
    }
}

pub open spec fn total_of(run: Seq<EntryModel>) -> Option<nat> {
    sum_present(run.map_values(|e: EntryModel| e.total))
}

pub open spec fn off_path_of(run: Seq<EntryModel>) -> Option<nat> {
    sum_present(run.map_values(|e: EntryModel| e.off_path))
}

pub open spec fn user_of(run: Seq<EntryModel>) -> Option<nat> {
    sum_present(run.map_values(|e: EntryModel| e.user))
}

pub open spec fn potential_of(run: Seq<EntryModel>) -> Option<nat> {
    sum_present(run.map_values(|e: EntryModel| e.potential))
}

/// How many entries a row stands for, if it is more than one.
pub open spec fn count_text(n: nat) -> Seq<char> {
    if n > 1 {
        " (×"@ + text::decimal(n) + ")"@
    } else {
        seq![]
    }
}

/// The columns of a row.
pub open spec fn columns(
    durations: Seq<Seq<char>>,
    kind: Seq<char>,
    name: Seq<char>,
    category: Seq<char>,
    identifier: Seq<char>,
    execution_kind: Seq<char>,
) -> Seq<char> {
    text::right_aligned(durations[0], 10) + " "@ + text::right_aligned(durations[1], 10) + " "@
        + text::right_aligned(durations[2], 10) + " "@ + text::right_aligned(durations[3], 10)
        + " "@ + text::right_aligned(durations[4], 10) + " "@ + kind + " "@ + name + " "@
        + category + " "@ + identifier + " "@ + execution_kind
}

/// The row that stands for a run.
pub open spec fn row_text(run: Seq<EntryModel>) -> Seq<char> {
    columns(
        seq![
            fmt_duration::precise_text(run[0].start_offset as nat * 1_000),
            readable_text(total_of(run)),
            readable_text(off_path_of(run)),
            readable_text(user_of(run)),
            readable_text(potential_of(run)),
        ],
        run[0].kind,
        text::joined(distinct_names(run), " / "@),
        text::or_empty(run[0].category),
        text::or_empty(run[0].identifier),
        text::or_empty(run[0].execution_kind),
    ) + count_text(run.len())
}

/// The time by which a run's row is painted: what it could save or, where that is not
/// known, what it took.
pub open spec fn color_key(run: Seq<EntryModel>) -> nat {
    match potential_of(run) {
        Some(n) => n,
        None => or_zero(total_of(run)),
    }
}

/// The row that stands for a run.
pub open spec fn row(run: Seq<EntryModel>) -> OutputModel {
    OutputModel::Row { style: style_for(color_key(run)), line: row_text(run) }
}

/// Whether the sums over a run are durations.
pub open spec fn sums_fit(run: Seq<EntryModel>) -> bool {
    &&& or_zero(total_of(run)) <= MAX_DURATION_NANOS
    &&& or_zero(off_path_of(run)) <= MAX_DURATION_NANOS
    &&& or_zero(user_of(run)) <= MAX_DURATION_NANOS
    &&& or_zero(potential_of(run)) <= MAX_DURATION_NANOS
}

/// A run of equivalent entries that has not been written.
struct RunState {
    /// The first entry, for the columns that the run shares.
    first: CriticalPathEntry,
    names: Vec<String>,
    count: u64,
    total: Option<Duration>,
    off_path: Option<Duration>,
    user: Option<Duration>,
    potential: Option<Duration>,
    entries: Ghost<Seq<EntryModel>>,
}

impl RunState {
    spec fn well_formed(self) -> bool {
        let run = self.entries@;
        &&& run.len() > 0
        &&& self.first@ == run[0]
        &&& text::views(self.names@) == distinct_names(run)
        &&& self.count as nat == run.len()
        &&& nanos(self.total) == total_of(run)
        &&& nanos(self.off_path) == off_path_of(run)
        &&& nanos(self.user) == user_of(run)
        &&& nanos(self.potential) == potential_of(run)
    }
}

/// Collapses consecutive equivalent entries into one row. Two kinds of run are
/// collapsed: entries that differ in their timing alone, and entries that wait,
/// whatever they wait for.
pub struct Run {
    current: Option<RunState>,
}

impl View for Run {
    type V = Option<Seq<EntryModel>>;

    /// The entries of the run that has not been written.
    closed spec fn view(&self) -> Option<Seq<EntryModel>> {
        match self.current {
            Some(state) => Some(state.entries@),
            None => None,
        }
    }
}

/// What is written of the run that has not been.
pub open spec fn pending_row(run: Option<Seq<EntryModel>>) -> Seq<OutputModel> {
    match run {
        Some(run) => seq![row(run)],
        None => seq![],
    }
}

proof fn lemma_sum_push(ds: Seq<Option<nat>>, d: Option<nat>)
    ensures
        sum_present(ds.push(d)) == match d {
            Some(n) => Some(or_zero(sum_present(ds)) + n),
            None => sum_present(ds),
        },
{
    assert(ds.push(d).drop_last() =~= ds);
}

/// How one more entry changes the sums over a run.
proof fn lemma_run_push(run: Seq<EntryModel>, e: EntryModel)
    ensures
        total_of(run.push(e)) == match e.total {
            Some(n) => Some(or_zero(total_of(run)) + n),
            None => total_of(run),
        },
        off_path_of(run.push(e)) == match e.off_path {
            Some(n) => Some(or_zero(off_path_of(run)) + n),
            None => off_path_of(run),
        },
        user_of(run.push(e)) == match e.user {
            Some(n) => Some(or_zero(user_of(run)) + n),
            None => user_of(run),
        },
        potential_of(run.push(e)) == match e.potential {
            Some(n) => Some(or_zero(potential_of(run)) + n),
            None => potential_of(run),
        },
        distinct_names(run.push(e)) == if distinct_names(run).contains(e.name) {
            distinct_names(run)
        } else {
            distinct_names(run).push(e.name)
        },
{
    assert(run.push(e).map_values(|e: EntryModel| e.total) =~= run.map_values(
        |e: EntryModel| e.total,
    ).push(e.total));
    lemma_sum_push(run.map_values(|e: EntryModel| e.total), e.total);
    assert(run.push(e).map_values(|e: EntryModel| e.off_path) =~= run.map_values(
        |e: EntryModel| e.off_path,
    ).push(e.off_path));
    lemma_sum_push(run.map_values(|e: EntryModel| e.off_path), e.off_path);
    assert(run.push(e).map_values(|e: EntryModel| e.user) =~= run.map_values(
        |e: EntryModel| e.user,
    ).push(e.user));
    lemma_sum_push(run.map_values(|e: EntryModel| e.user), e.user);
    assert(run.push(e).map_values(|e: EntryModel| e.potential) =~= run.map_values(
        |e: EntryModel| e.potential,
    ).push(e.potential));
    lemma_sum_push(run.map_values(|e: EntryModel| e.potential), e.potential);
    assert(run.push(e).drop_last() =~= run);
}

/// A run of one entry.
proof fn lemma_run_single(e: EntryModel)
    ensures
        total_of(seq![e]) == e.total,
        off_path_of(seq![e]) == e.off_path,
        user_of(seq![e]) == e.user,
        potential_of(seq![e]) == e.potential,
        distinct_names(seq![e]) == seq![e.name],
{
    let none = Seq::<EntryModel>::empty();
    lemma_run_push(none, e);
    assert(none.push(e) =~= seq![e]);
    assert(none.map_values(|e: EntryModel| e.total) =~= Seq::<Option<nat>>::empty());
    assert(none.map_values(|e: EntryModel| e.off_path) =~= Seq::<Option<nat>>::empty());
    assert(none.map_values(|e: EntryModel| e.user) =~= Seq::<Option<nat>>::empty());
    assert(none.map_values(|e: EntryModel| e.potential) =~= Seq::<Option<nat>>::empty());
    assert(distinct_names(none) =~= Seq::<Seq<char>>::empty());
    assert(distinct_names(none).push(e.name) =~= seq![e.name]);
}

/// Whether the name is among the names.
fn has_name(names: &Vec<String>, name: &String) -> (b: bool)
    ensures
        b == text::views(names@).contains(name@),
{
    let mut i: usize = 0;
    while i < names.len()
        invariant
            i <= names.len(),
            forall|k: int| 0 <= k < i ==> names@[k]@ != name@,
        decreases names.len() - i,
    {
        if names[i] == *name {
            assert(text::views(names@)[i as int] == name@);
            return true;
        }
        i = i + 1;
    }
    false
}

/// The columns of a row.
pub(crate) fn columns_text(
    durations: &Vec<String>,
    kind: &str,
    name: &str,
    category: &str,
    identifier: &str,
    execution_kind: &str,
) -> (out: String)
    requires
        durations@.len() == 5,
    ensures
        out@ == columns(
            text::views(durations@),
            kind@,
            name@,
            category@,
            identifier@,
            execution_kind@,
        ),
{
    let mut out = String::new();
    push_right_aligned(&mut out, durations[0].as_str(), 10);
    assert(out@ =~= text::right_aligned(text::views(durations@)[0], 10));
    out.append(" ");
    push_right_aligned(&mut out, durations[1].as_str(), 10);
    out.append(" ");
    push_right_aligned(&mut out, durations[2].as_str(), 10);
    out.append(" ");
    push_right_aligned(&mut out, durations[3].as_str(), 10);
    out.append(" ");
    push_right_aligned(&mut out, durations[4].as_str(), 10);
    out.append(" ");
    out.append(kind);
    out.append(" ");
    out.append(name);
    out.append(" ");
    out.append(category);
    out.append(" ");
    out.append(identifier);
    out.append(" ");
    out.append(execution_kind);
    out
}

impl Run {
    pub closed spec fn well_formed(self) -> bool {
        match self.current {
            Some(state) => state.well_formed(),
            None => true,
        }
    }

    /// No run.
    pub fn new() -> (run: Run)
        ensures
            run.well_formed(),
            run@ is None,
    {
        Run { current: None }
    }

    /// Adds an entry: extends the run, or writes it and starts another one.
    pub fn push(&mut self, out: &mut Vec<OutputItem>, entry: CriticalPathEntry)
        requires
            old(self).well_formed(),
            old(self)@ matches Some(run) ==> run[0].extends_to(entry@) ==> sums_fit(
                run.push(entry@),
            ) && run.len() < u64::MAX,
        ensures
            final(self).well_formed(),
            match old(self)@ {
                Some(run) if run[0].extends_to(entry@) => {
                    &&& final(self)@ == Some(run.push(entry@))
                    &&& final(out)@ == old(out)@
                },
                _ => {
                    &&& final(self)@ == Some(seq![entry@])
                    &&& items(final(out)@) == items(old(out)@) + pending_row(old(self)@)
                },
            },
    {
        let ghost e = entry@;
        let extends: bool = match &self.current {
            Some(state) => can_extend(&state.first, &entry),
            None => false,
        };
        if extends {
            if let Some(mut state) = self.current.take() {
                let ghost run = state.entries@;
                proof {
                    lemma_run_push(run, e);
                }
                state.count = state.count + 1;
                add_opt(&mut state.total, entry.total_duration.inner);
                add_opt(&mut state.off_path, entry.non_critical_path_time.inner);
                add_opt(&mut state.user, entry.user_duration.inner);
                add_opt(&mut state.potential, entry.potential_improvement_duration.inner);
                if !has_name(&state.names, &entry.name) {
                    let ghost before = state.names@;
                    state.names.push(entry.name);
                    assert(text::views(state.names@) =~= text::views(before).push(e.name));
                }
                state.entries = Ghost(run.push(e));
                self.current = Some(state);
            }
        } else {
            self.flush(out);
            let ghost single = seq![e];
            proof {
                lemma_run_single(e);
            }
            let names: Vec<String> = vec![entry.name.clone()];
            assert(text::views(names@) =~= seq![e.name]);
            self.current = Some(
                RunState {
                    names,
                    total: entry.total_duration.inner,
                    off_path: entry.non_critical_path_time.inner,
                    user: entry.user_duration.inner,
                    potential: entry.potential_improvement_duration.inner,
                    count: 1,
                    first: entry,
                    entries: Ghost(single),
                },
            );
        }
    }

    /// Writes the run, if there is one, and clears it.
    pub fn flush(&mut self, out: &mut Vec<OutputItem>)
        requires
            old(self).well_formed(),
        ensures
            final(self).well_formed(),
            final(self)@ is None,
            items(final(out)@) == items(old(out)@) + pending_row(old(self)@),
    {
        let state: RunState = match self.current.take() {
            Some(state) => state,
            None => {
                assert(items(out@) + pending_row(old(self)@) =~= items(out@));
                return ;
            },
        };
        let ghost run = state.entries@;
        let e = &state.first;
        let durations: Vec<String> = vec![
            fmt_duration_precise(Duration::from_micros(e.start_offset)),
            fmt_opt(state.total),
            fmt_opt(state.off_path),
            fmt_opt(state.user),
            fmt_opt(state.potential),
        ];
        assert(text::views(durations@) =~= seq![
            fmt_duration::precise_text(run[0].start_offset as nat * 1_000),
            readable_text(total_of(run)),
            readable_text(off_path_of(run)),
            readable_text(user_of(run)),
            readable_text(potential_of(run)),
        ]);
        let names: String = join(&state.names, " / ");
        let mut line: String = columns_text(
            &durations,
            e.kind.as_str(),
            names.as_str(),
            str_or_empty(&e.category),
            str_or_empty(&e.identifier),
            str_or_empty(&e.execution_kind),
        );
        if state.count > 1 {
            line.append(" (×");
            push_decimal(&mut line, state.count as u128);
            line.append(")");
        }
        assert(line@ =~= row_text(run));
        let color_key: Duration = match state.potential {
            Some(d) => d,
            None => match state.total {
                Some(d) => d,
                None => Duration::zero(),
            },
        };
        let item = OutputItem::Row { style: row_style(color_key), line };
        assert(item@ == row(run));
        let ghost before = out@;
        out.push(item);
        assert(items(out@) =~= items(before) + pending_row(Some(run)));
    }
}

} // verus!
