//! Configuration supplied when the pipeline starts.
use vstd::prelude::*;

verus! {

/// The settings of the whole pipeline.
#[derive(Debug, Clone)]
pub struct Config {
    pub llm: LLMConfig,
    pub global_filters: Filters,
    /// Each configured feed under its name, in the order given.
    pub feeds: Vec<(String, FeedConfig)>,
    pub server_host: String,
    pub server_port: u16,
    pub polling_interval_seconds: u64,
    pub max_items_per_feed: usize,
    pub known_items_file: String,
}

/// How to reach the language model that judges items.
#[derive(Debug, Clone)]
pub struct LLMConfig {
    pub provider: String,
    pub api_key: String,
    pub model: String,
    pub prompt: String,
}

/// Topics that make an item wanted or unwanted.
#[derive(Debug, Clone)]
pub struct Filters {
    pub accept: Vec<String>,
    pub reject: Vec<String>,
}

/// One remote feed: where it is fetched from and its own topics.
#[derive(Debug, Clone)]
pub struct FeedConfig {
    pub url: String,
    pub filters: Filters,
}

} // verus!
