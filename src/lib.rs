//! Statistics and reporting for A/B testing of shell scripts: per-experiment
//! sample sequences, confidence intervals from Student's t-distribution,
//! significance verdicts, and terminal bars and histograms.

pub mod also_measure;
pub mod bar;
pub mod duration;
pub mod experiment;
pub mod histogram;
pub mod measure_key;
pub mod measurement;
pub mod mem_usage;
pub mod report;
pub mod run_loop;
pub mod stats;
pub mod text;

pub use measure_key::MeasureKey;
pub use mem_usage::MemUsage;
