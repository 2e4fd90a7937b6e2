//! Settings of the service, built once at start-up and passed to each part.
use vstd::prelude::*;

verus! {

#[derive(Clone, Debug)]
pub struct Config {
    pub output_folder: String,
    pub db_url: String,
    pub download_source_url: String,
    pub download_source_token: String,
    pub service_name: String,
    pub debug_traces: bool,
    pub otlp_endpoint: Option<String>,
    pub traces_endpoint: Option<String>,
}

} // verus!
