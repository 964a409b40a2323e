use vstd::prelude::*;

pub mod text;
pub mod num;
pub mod finalize;
pub mod harvest;
pub mod runner;
pub mod doctor;
pub mod roots;
pub mod dashboard;
pub mod costs;
pub mod profile;
pub mod profile_buckets;
pub mod calibrate_governor;
pub mod governor_cells;
pub mod session;
pub mod cap;
pub mod log_query;
pub mod resume;
pub mod jobs;
pub mod calibrate;
pub mod calibrate_config;
pub mod telemetry;
pub mod transcript_json;

verus! {

} // verus!
