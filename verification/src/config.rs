use vstd::prelude::*;

verus! {

/// Disk scan configuration: the root paths to scan and a human-readable
/// size-threshold string (for example "500MB") that is parsed when a scan
/// starts.
pub struct DiskConfig {
    pub scan_paths: Vec<String>,
    pub size_threshold: String,
}

/// Network configuration: human-readable byte-rate thresholds for received
/// and transmitted traffic (for example "1MB").
pub struct NetworkConfig {
    pub threshold_rx: String,
    pub threshold_tx: String,
}

/// Startup validation rule for the CPU section of the configuration: at
/// least one of `threshold_max` / `threshold_min` must be present, or the
/// program must abort before any scan runs.
pub fn cpu_config_ok(has_max: bool, has_min: bool) -> (r: bool)
    ensures
        r == (has_max || has_min),
{
    has_max || has_min
}

} // verus!
