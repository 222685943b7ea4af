//! The settings of one benchmark run.

use std::time::Duration;
use vstd::prelude::*;

use crate::headers::HeaderMap;

verus! {

/// `Duration` is `Copy`; its `clone` hands back the same duration.
pub assume_specification[ <Duration as Clone>::clone ](d: &Duration) -> (r: Duration)
    ensures
        r == *d,
;

/// Everything a run needs to know: load shape, target, request and script.
#[derive(Clone, Debug)]
pub struct BenchConfig {
    pub threads: usize,
    pub connections: usize,
    pub duration: Duration,
    pub timeout: Duration,
    pub url: String,
    pub scheme: String,
    pub host: String,
    pub port: u16,
    pub path: String,
    pub method: String,
    pub headers: HeaderMap,
    pub body: Option<Vec<u8>>,
    pub script_source: Option<String>,
    pub script_args: Vec<String>,
    pub print_latency: bool,
}

impl BenchConfig {
    /// The connections each thread opens: an even share of the total, and at
    /// least one.
    pub fn connections_per_thread(&self) -> (n: usize)
        requires
            self.threads > 0,
        ensures
            n == if self.connections / self.threads > 1 {
                self.connections / self.threads
            } else {
                1
            },
    {
        let share = self.connections / self.threads;
        if share > 1 {
            share
        } else {
            1
        }
    }
}

} // verus!
