//! Build events, as the trace writer reads them.

use vstd::prelude::*;

use crate::time::Duration;
use crate::time::SystemTime;

verus! {

/// One event of a build.
pub struct BuckEvent {
    pub timestamp: SystemTime,
    /// The span that the event starts or ends.
    pub span_id: Option<u64>,
    /// The span around the event.
    pub parent_id: Option<u64>,
    pub data: EventData,
}

/// What an event reports.
pub enum EventData {
    SpanStart(Option<SpanStart>),
    SpanEnd(SpanEnd),
    Instant(Option<Instant>),
    Record,
}

/// The start of a span. Names that come from elsewhere are held as they are shown,
/// or as the reason why they cannot be shown.
pub enum SpanStart {
    Command,
    Analysis {
        target: Option<Result<String, String>>,
    },
    Load {
        module_id: String,
    },
    LoadPackage {
        path: String,
    },
    ActionExecution {
        identity: Result<String, String>,
    },
    ExecutorStage {
        stage: Option<ExecutorStage>,
    },
    FinalMaterialization,
    FileWatcher,
    ReUpload,
    /// Any other span. `debug` begins with the name of its kind.
    Other {
        debug: String,
    },
}

/// A stage in the execution of an action, and the name under which it is shown, if
/// it has one.
pub struct ExecutorStage {
    pub stage: Stage,
    pub display: Option<String>,
}

/// Where a stage takes place.
#[derive(Copy, Clone, Debug, PartialEq, Eq)]
pub enum Stage {
    Local(Option<LocalStage>),
    Re(Option<ReStage>),
    Other,
}

/// A stage on the local machine.
#[derive(Copy, Clone, Debug, PartialEq, Eq)]
pub enum LocalStage {
    Queued,
    Execute,
    AcquireLocalResource,
    WorkerInit,
    WorkerExecute,
    WorkerQueued,
    WorkerWait,
    Other,
}

/// A stage in remote execution.
#[derive(Copy, Clone, Debug, PartialEq, Eq)]
pub enum ReStage {
    Execute,
    Queue,
    QueueOverQuota,
    QueueAcquiringDependencies,
    QueueNoWorkerAvailable,
    QueueCancelled,
    Other,
}

/// The end of a span.
pub struct SpanEnd {
    /// How long the span took, or why the recorded duration is not one.
    pub duration: Option<Result<Duration, String>>,
    pub materialization: Option<Materialization>,
}

/// The outcome of materializing a path.
pub struct Materialization {
    pub success: bool,
    pub path: String,
    pub file_count: u64,
    pub total_bytes: u64,
    pub error: Option<String>,
}

/// Something that happens at one moment.
pub enum Instant {
    Snapshot(Snapshot),
    CommandPreempted,
    BuildGraphInfo(Vec<PathEntry>),
    Other,
}

/// Readings of the daemon's counters.
pub struct Snapshot {
    pub buck2_max_rss: u64,
    pub malloc_bytes_active: Option<u64>,
    pub deferred_materializer_queue_size: u64,
    pub blocking_executor_io_queue_size: u64,
    pub tokio_blocking_queue_depth: u64,
    pub buck2_user_cpu_us: u64,
    pub buck2_system_cpu_us: u64,
    pub re_upload_bytes: u64,
    pub re_download_bytes: u64,
    pub http_download_bytes: u64,
    /// In the order in which the interfaces are to be reported.
    pub network_interface_stats: Vec<NetworkInterfaceStats>,
}

/// The traffic of one network interface.
pub struct NetworkInterfaceStats {
    pub nic: String,
    pub tx_bytes: u64,
    pub rx_bytes: u64,
}

/// One entry of the critical path.
pub struct PathEntry {
    pub start_offset_ns: Option<u64>,
    /// A duration that is missing or that is not one counts as zero.
    pub total_duration: Option<Duration>,
    pub non_critical_path_duration: Option<Duration>,
    /// The entry's name, nothing when it is not shown, or why it has none.
    pub display: Result<Option<String>, String>,
}

} // verus!
