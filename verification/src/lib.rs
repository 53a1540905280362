//! Build telemetry: human-readable durations, critical-path reports, log uploads,
//! credential helpers, telemetry export settings and perfetto traces.
//!
//! Every function here is verified. Whatever reads a clock, a file, the network or
//! the environment hands its findings to this library as plain values.

pub mod binary64;
pub mod contract_laws;
pub mod counter_laws;
pub mod credential_helper;
pub mod credential_laws;
pub mod critical_path;
pub mod digest;
pub mod events;
pub mod fmt_duration;
pub mod header_map;
pub mod history_laws;
pub mod log_upload;
pub mod name_laws;
pub mod otel;
pub mod output_laws;
pub mod packet_laws;
pub mod path_laws;
pub mod path_report;
pub mod perfetto_proto;
pub mod report_laws;
pub mod rounding_laws;
pub mod s3;
pub mod s3_laws;
pub mod sample_laws;
pub mod span_laws;
pub mod spans;
pub mod telemetry_laws;
pub mod text;
pub mod text_laws;
pub mod time;
pub mod time_laws;
pub mod trace_reading;
pub mod track_laws;
pub mod wire;
pub mod wire_reading;
pub mod writer;
pub mod writer_laws;
pub mod writer_model;
pub mod writer_room;
