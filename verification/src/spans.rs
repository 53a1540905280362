//! How spans are named, grouped and laid out on tracks.

use vstd::prelude::*;

use crate::events::ExecutorStage;
use crate::events::LocalStage;
use crate::events::ReStage;
use crate::events::SpanStart;
use crate::events::Stage;
use crate::text;
use crate::text::concat;

verus! {

/// The first of the uuids that are kept for group tracks.
pub const GROUP_TRACK_BASE: u64 = 0xFFFF_FFFF_0000_0000;

pub const TRACK_ACTIONS: u64 = 0xFFFF_FFFF_0000_0001;

pub const TRACK_ANALYSIS: u64 = 0xFFFF_FFFF_0000_0002;

pub const TRACK_LOADS: u64 = 0xFFFF_FFFF_0000_0003;

pub const TRACK_MISC: u64 = 0xFFFF_FFFF_0000_0004;

pub const TRACK_CRITICAL_PATH: u64 = 0xFFFF_FFFF_0000_0005;

/// The group of the counters of open spans.
pub const TRACK_SPAN_COUNTERS: u64 = 0xFFFF_FFFF_0000_0006;

/// The group of the slices in which an action waits.
pub const TRACK_QUEUED: u64 = 0xFFFF_FFFF_0000_0007;

/// The first of the uuids that are kept for counter tracks.
pub const COUNTER_TRACK_BASE: u64 = 0xFFFF_FFFF_0000_1000;

/// Turns the id of an action's span into the uuid of the track on which the action
/// waits, and back.
pub const QUEUED_TRACK_SALT: u64 = 0x5A5A_A5A5_C3C3_3C3D;

/// The group that a span belongs to.
#[derive(Copy, Clone, Debug, PartialEq, Eq)]
pub enum Category {
    Actions,
    Analysis,
    Loads,
    Misc,
}

impl Category {
    /// The uuid of the group's track.
    #[verifier::allow_in_spec]
    pub fn group_uuid(self) -> u64
        returns
            (match self {
                Category::Actions => TRACK_ACTIONS,
                Category::Analysis => TRACK_ANALYSIS,
                Category::Loads => TRACK_LOADS,
                Category::Misc => TRACK_MISC,
            }),
    {
        match self {
            Category::Actions => TRACK_ACTIONS,
            Category::Analysis => TRACK_ANALYSIS,
            Category::Loads => TRACK_LOADS,
            Category::Misc => TRACK_MISC,
        }
    }

    /// The group's name.
    pub open spec fn name(self) -> Seq<char> {
        match self {
            Category::Actions => "actions"@,
            Category::Analysis => "analysis"@,
            Category::Loads => "loads"@,
            Category::Misc => "misc"@,
        }
    }

    /// The group's name.
    pub fn key(self) -> (key: &'static str)
        ensures
            key@ == self.name(),
    {
        match self {
            Category::Actions => "actions",
            Category::Analysis => "analysis",
            Category::Loads => "loads",
            Category::Misc => "misc",
        }
    }
}

/// The uuid of the track on which an action waits.
pub fn queued_track_uuid(action_span_id: u64) -> (uuid: u64)
    ensures
        uuid == action_span_id ^ QUEUED_TRACK_SALT,
{
    action_span_id ^ QUEUED_TRACK_SALT
}

/// The waiting track is derived reversibly.
pub proof fn law_queued_track_is_reversible(id: u64)
    ensures
        (id ^ QUEUED_TRACK_SALT) ^ QUEUED_TRACK_SALT == id,
{
    assert((id ^ 0x5A5A_A5A5_C3C3_3C3D) ^ 0x5A5A_A5A5_C3C3_3C3D == id) by (bit_vector);
}

/// Two actions never share a waiting track, and an action's waiting track is never
/// its own track.
pub proof fn law_queued_tracks_are_distinct(a: u64, b: u64)
    ensures
        a ^ QUEUED_TRACK_SALT == b ^ QUEUED_TRACK_SALT ==> a == b,
        a ^ QUEUED_TRACK_SALT != a,
{
    assert(a ^ 0x5A5A_A5A5_C3C3_3C3D == b ^ 0x5A5A_A5A5_C3C3_3C3D ==> a == b) by (bit_vector);
    assert(a ^ 0x5A5A_A5A5_C3C3_3C3D != a) by (bit_vector);
}

/// A waiting track stays clear of the uuids kept for groups and counters, unless the
/// upper half of the action's id is the complement of the upper half of the salt.
pub proof fn law_queued_track_is_not_reserved(id: u64)
    ensures
        id ^ QUEUED_TRACK_SALT < GROUP_TRACK_BASE <==> id / 0x1_0000_0000 != 0xA5A5_5A5A,
{
    assert(id ^ 0x5A5A_A5A5_C3C3_3C3D < 0xFFFF_FFFF_0000_0000 <==> id / 0x1_0000_0000
        != 0xA5A5_5A5A) by (bit_vector);
}

/// Whether a stage executes the action, rather than queueing, preparing or moving
/// files.
pub open spec fn is_execution(stage: Stage) -> bool {
    match stage {
        Stage::Local(Some(LocalStage::Execute)) => true,
        Stage::Local(Some(LocalStage::WorkerExecute)) => true,
        Stage::Re(Some(ReStage::Execute)) => true,
        _ => false,
    }
}

/// Whether the action waits in a stage. Starting a worker is work; a remote action
/// that was cancelled in the queue has only waited.
pub open spec fn is_waiting(stage: Stage) -> bool {
    match stage {
        Stage::Local(Some(local)) => {
            ||| local is Queued
            ||| local is WorkerQueued
            ||| local is WorkerWait
            ||| local is AcquireLocalResource
        },
        Stage::Re(Some(re)) => {
            ||| re is Queue
            ||| re is QueueOverQuota
            ||| re is QueueAcquiringDependencies
            ||| re is QueueNoWorkerAvailable
            ||| re is QueueCancelled
        },
        _ => false,
    }
}

/// No stage both executes and waits.
pub proof fn law_execution_is_not_waiting(stage: Stage)
    ensures
        !(is_execution(stage) && is_waiting(stage)),
{
}

/// Whether a stage executes the action.
pub fn stage_is_execution(stage: &Stage) -> (b: bool)
    ensures
        b == is_execution(*stage),
{
    match stage {
        Stage::Local(local) => matches!(
            local,
            Some(LocalStage::Execute) | Some(LocalStage::WorkerExecute)
        ),
        Stage::Re(re) => matches!(re, Some(ReStage::Execute)),
        _ => false,
    }
}

/// Whether the action waits in a stage.
pub fn stage_is_waiting(stage: &Stage) -> (b: bool)
    ensures
        b == is_waiting(*stage),
{
    match stage {
        Stage::Local(local) => matches!(
            local,
            Some(LocalStage::Queued)
            | Some(LocalStage::WorkerQueued)
            | Some(LocalStage::WorkerWait)
            | Some(LocalStage::AcquireLocalResource)
        ),
        Stage::Re(re) => matches!(
            re,
            Some(ReStage::Queue)
            | Some(ReStage::QueueOverQuota)
            | Some(ReStage::QueueAcquiringDependencies)
            | Some(ReStage::QueueNoWorkerAvailable)
            | Some(ReStage::QueueCancelled)
        ),
        _ => false,
    }
}

/// The name under which a stage is shown.
pub open spec fn stage_display(stage: Option<ExecutorStage>) -> Option<Seq<char>> {
    match stage {
        Some(s) => text::optional_view(s.display),
        None => None,
    }
}

/// The counter of open spans that a span of this kind adds to.
pub open spec fn population_counter(start: SpanStart) -> Option<Seq<char>> {
    match start {
        SpanStart::Analysis { .. } => Some("analysis"@),
        SpanStart::Load { .. } => Some("load"@),
        SpanStart::ReUpload => Some("re_upload"@),
        SpanStart::ExecutorStage { stage } => stage_display(stage),
        _ => None,
    }
}

/// The counter of open spans that a span of this kind adds to.
pub fn span_population_counter_name(start: &SpanStart) -> (name: Option<&str>)
    ensures
        name is Some <==> population_counter(*start) is Some,
        name matches Some(n) ==> Some(n@) == population_counter(*start),
{
    match start {
        SpanStart::Analysis { .. } => Some("analysis"),
        SpanStart::Load { .. } => Some("load"),
        SpanStart::ReUpload => Some("re_upload"),
        SpanStart::ExecutorStage { stage } => match stage {
            Some(s) => match &s.display {
                Some(d) => Some(d.as_str()),
                None => None,
            },
            None => None,
        },
        _ => None,
    }
}

/// Why an event cannot be written.
#[derive(Clone, Debug, PartialEq, Eq)]
pub enum WriterError {
    /// The start of an analysis does not say what is analyzed.
    MissingTarget,
    /// The end of a span does not say how long it took.
    MissingDuration,
    /// A name cannot be shown.
    Display(String),
    /// The recorded duration is not one.
    InvalidDuration(String),
}

/// What a [`WriterError`] says.
pub enum WriterErrorModel {
    MissingTarget,
    MissingDuration,
    Display(Seq<char>),
    InvalidDuration(Seq<char>),
}

impl View for WriterError {
    type V = WriterErrorModel;

    open spec fn view(&self) -> WriterErrorModel {
        match self {
            WriterError::MissingTarget => WriterErrorModel::MissingTarget,
            WriterError::MissingDuration => WriterErrorModel::MissingDuration,
            WriterError::Display(e) => WriterErrorModel::Display(e@),
            WriterError::InvalidDuration(e) => WriterErrorModel::InvalidDuration(e@),
        }
    }
}

impl WriterErrorModel {
    pub open spec fn text(self) -> Seq<char> {
        match self {
            WriterErrorModel::MissingTarget => "AnalysisStart missing target"@,
            WriterErrorModel::MissingDuration => "SpanEnd missing duration"@,
            WriterErrorModel::Display(e) => e,
            WriterErrorModel::InvalidDuration(e) => e,
        }
    }
}

impl WriterError {
    /// The error in words.
    pub fn message(&self) -> (text: String)
        ensures
            text@ == self@.text(),
    {
        match self {
            WriterError::MissingTarget => "AnalysisStart missing target".to_owned(),
            WriterError::MissingDuration => "SpanEnd missing duration".to_owned(),
            WriterError::Display(e) => e.clone(),
            WriterError::InvalidDuration(e) => e.clone(),
        }
    }
}

/// What `char::is_alphanumeric` says of a character.
pub uninterp spec fn alphanumeric(c: char) -> bool;

/// Whether an ASCII character is a letter or a digit.
pub open spec fn ascii_alphanumeric(c: char) -> bool {
    ||| '0' <= c <= '9'
    ||| 'A' <= c <= 'Z'
    ||| 'a' <= c <= 'z'
}

/// `char::is_alphanumeric` depends on the character alone. Among the ASCII
/// characters it picks the letters and the digits. Which other characters it picks
/// follows the Unicode tables and is not stated.
pub assume_specification[ char::is_alphanumeric ](c: char) -> (b: bool)
    ensures
        b == alphanumeric(c),
        c <= '\u{7f}' ==> b == ascii_alphanumeric(c),
;

/// Whether a character can stand in an identifier.
pub open spec fn in_identifier(c: char) -> bool {
    alphanumeric(c) || c == '_'
}

/// The length of the longest prefix of `s` whose characters can all stand in an
/// identifier.
pub open spec fn identifier_len(s: Seq<char>) -> nat
    decreases s.len(),
{
    if s.len() > 0 && in_identifier(s[0]) {
        1 + identifier_len(s.drop_first())
    } else {
        0
    }
}

/// The identifier at the front of `debug`, or `<unknown>` where there is none.
pub open spec fn leading_identifier(debug: Seq<char>) -> Seq<char> {
    if identifier_len(debug) == 0 {
        "<unknown>"@
    } else {
        debug.take(identifier_len(debug) as int)
    }
}

proof fn lemma_identifier_len(s: Seq<char>, i: int)
    requires
        0 <= i <= s.len(),
        forall|k: int| 0 <= k < i ==> in_identifier(#[trigger] s[k]),
        i == s.len() || !in_identifier(s[i]),
    ensures
        identifier_len(s) == i,
    decreases s.len(),
{
    if i > 0 {
        assert(in_identifier(s[0]));
        let rest = s.drop_first();
        assert forall|k: int| 0 <= k < i - 1 implies in_identifier(#[trigger] rest[k]) by {
            assert(rest[k] == s[k + 1]);
        }
        lemma_identifier_len(rest, i - 1);
    }
}

/// The name of a span whose kind has none of its own.
pub fn generic_span_name(debug: &str) -> (name: String)
    ensures
        name@ == leading_identifier(debug@),
{
    let len: usize = debug.unicode_len();
    let mut name = String::new();
    let mut i: usize = 0;
    while i < len
        invariant_except_break
            i <= len,
            len == debug@.len(),
            name@ == debug@.take(i as int),
            forall|k: int| 0 <= k < i ==> in_identifier(#[trigger] debug@[k]),
        ensures
            i <= debug@.len(),
            name@ == debug@.take(i as int),
            forall|k: int| 0 <= k < i ==> in_identifier(#[trigger] debug@[k]),
            i == debug@.len() || !in_identifier(debug@[i as int]),
        decreases len - i,
    {
        let c = debug.get_char(i);
        if !(c.is_alphanumeric() || c == '_') {
            break ;
        }
        name.push(c);
        assert(debug@.take(i + 1) =~= debug@.take(i as int).push(c));
        i = i + 1;
    }
    proof {
        lemma_identifier_len(debug@, i as int);
    }
    if i == 0 {
        "<unknown>".to_owned()
    } else {
        name
    }
}

/// The name of a span, and the group it belongs to.
pub open spec fn name_and_category(start: SpanStart) -> Result<
    (Seq<char>, Category),
    WriterErrorModel,
> {
    match start {
        SpanStart::Command => Ok(("command"@, Category::Misc)),
        SpanStart::Analysis { target } => match target {
            None => Err(WriterErrorModel::MissingTarget),
            Some(Err(e)) => Err(WriterErrorModel::Display(e@)),
            Some(Ok(t)) => Ok(("analysis "@ + t@, Category::Analysis)),
        },
        SpanStart::Load { module_id } => Ok(("load "@ + module_id@, Category::Loads)),
        SpanStart::LoadPackage { path } => Ok(("listing "@ + path@, Category::Loads)),
        SpanStart::ActionExecution { identity } => match identity {
            Err(e) => Err(WriterErrorModel::Display(e@)),
            Ok(name) => Ok((name@, Category::Actions)),
        },
        SpanStart::ExecutorStage { stage } => match stage_display(stage) {
            Some(name) => Ok((name, Category::Actions)),
            None => Ok(("executor_stage"@, Category::Actions)),
        },
        SpanStart::FinalMaterialization => Ok(("materialization"@, Category::Actions)),
        SpanStart::FileWatcher => Ok(("file_watcher_sync"@, Category::Misc)),
        SpanStart::ReUpload => Ok(("re_upload"@, Category::Actions)),
        SpanStart::Other { debug } => Ok((leading_identifier(debug@), Category::Misc)),
    }
}

/// The name of a span, and the group it belongs to.
pub fn span_name_and_category(start: &SpanStart) -> (r: Result<(String, Category), WriterError>)
    ensures
        match name_and_category(*start) {
            Ok((name, category)) => r matches Ok(pair) && pair.0@ == name && pair.1 == category,
            Err(e) => r matches Err(error) && error@ == e,
        },
{
    match start {
        SpanStart::Command => Ok(("command".to_owned(), Category::Misc)),
        SpanStart::Analysis { target } => match target {
            None => Err(WriterError::MissingTarget),
            Some(Err(e)) => Err(WriterError::Display(e.clone())),
            Some(Ok(t)) => Ok((concat("analysis ", t.as_str()), Category::Analysis)),
        },
        SpanStart::Load { module_id } => Ok(
            (concat("load ", module_id.as_str()), Category::Loads),
        ),
        SpanStart::LoadPackage { path } => Ok(
            (concat("listing ", path.as_str()), Category::Loads),
        ),
        SpanStart::ActionExecution { identity } => match identity {
            Err(e) => Err(WriterError::Display(e.clone())),
            Ok(name) => Ok((name.clone(), Category::Actions)),
        },
        SpanStart::ExecutorStage { stage } => {
            let name: String = match stage {
                Some(s) => match &s.display {
                    Some(d) => d.clone(),
                    None => "executor_stage".to_owned(),
                },
                None => "executor_stage".to_owned(),
            };
            Ok((name, Category::Actions))
        },
        SpanStart::FinalMaterialization => Ok(
            ("materialization".to_owned(), Category::Actions),
        ),
        SpanStart::FileWatcher => Ok(("file_watcher_sync".to_owned(), Category::Misc)),
        SpanStart::ReUpload => Ok(("re_upload".to_owned(), Category::Actions)),
        SpanStart::Other { debug } => Ok((generic_span_name(debug.as_str()), Category::Misc)),
    }
}

} // verus!
