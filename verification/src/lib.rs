//! Verified core of a paired-read demultiplexer.
//!
//! Two synchronized streams of 4-line sequencing records are read in
//! lock-step; each pair is validated and split into three derived records
//! (identity-stripped primary, reverse-complemented barcode tail, forward
//! insert prefix).  This crate holds the record model, the framing parser,
//! the per-pair transform, batching, distribution, serialization, the
//! shared counters, and a sequential end-to-end core, all with proved
//! contracts.  Process wiring (files, compression, threads, channels) lives
//! outside the library.

pub mod output;
pub mod parser;
pub mod pipeline;
pub mod process;
pub mod record;
pub mod stats;
pub mod transform;

pub use parser::FramingError;
pub use parser::read_fastq_batch;
pub use parser::read_fastq_record;
pub use pipeline::PipelineResult;
pub use pipeline::run_pipeline;
pub use process::ProcessedRecord;
pub use process::process_batch;
pub use process::process_batch_counted;
pub use process::process_record_pair;
pub use output::OutputRole;
pub use output::make_output_name;
pub use output::serialize_batch;
pub use output::split_triples;
pub use record::FastqRecord;
pub use stats::Statistics;
pub use transform::complement_base;
pub use transform::extract_base_header;
pub use transform::reverse_complement;
