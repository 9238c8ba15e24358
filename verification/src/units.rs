use vstd::prelude::*;
use crate::config::DiskConfig;
use crate::config::NetworkConfig;

verus! {

/// The number of bytes that a human-readable size string (for example
/// "500MB", "1.5 GiB") denotes, or `None` where the string is malformed.
/// The value is determined by the characters of the string alone.
pub uninterp spec fn parsed_size(s: Seq<char>) -> Option<u64>;

/// Relies on byte_unit::Byte::parse_str (case-insensitive units) and
/// byte_unit::Byte::as_u64: both are pure functions of the string, so the
/// parse outcome is named by `parsed_size`.
#[verifier::external_body]
pub fn parse_size(s: &str) -> (r: Option<u64>)
    ensures
        r == parsed_size(s@),
{
    byte_unit::Byte::parse_str(s, true).ok().map(|b| b.as_u64())
}

/// Disk scan parameters drawn from the configuration: the scan roots and the
/// byte threshold. Returns `None` exactly when the size-threshold string does
/// not parse; the caller then runs no scan and reports no matches (the scan
/// is silently empty rather than an error).
pub fn get_disk_params(config: &DiskConfig) -> (r: Option<(Vec<String>, u64)>)
    ensures
        match r {
            Some((paths, threshold)) => {
                &&& parsed_size(config.size_threshold@) == Some(threshold)
                &&& paths@ == config.scan_paths@
            },
            None => parsed_size(config.size_threshold@) is None,
        },
{
    match parse_size(config.size_threshold.as_str()) {
        Some(threshold) => Some((crate::fs_tree::clone_path(&config.scan_paths), threshold)),
        None => None,
    }
}

/// Network thresholds drawn from the configuration: received and transmitted
/// byte-rate bounds. Returns `None` exactly when either string does not
/// parse; startup then fails.
pub fn network_thresholds(config: &NetworkConfig) -> (r: Option<(u64, u64)>)
    ensures
        match r {
            Some((rx, tx)) => {
                &&& parsed_size(config.threshold_rx@) == Some(rx)
                &&& parsed_size(config.threshold_tx@) == Some(tx)
            },
            None => parsed_size(config.threshold_rx@) is None || parsed_size(
                config.threshold_tx@,
            ) is None,
        },
{
    match (parse_size(config.threshold_rx.as_str()), parse_size(config.threshold_tx.as_str())) {
        (Some(rx), Some(tx)) => Some((rx, tx)),
        _ => None,
    }
}

/// Which sides of a sampled network interface exceed their thresholds.
pub struct BandReport {
    pub rx_over: bool,
    pub tx_over: bool,
}

/// The over/under-threshold decision for one sampled interface: an interface
/// is flagged when its receive rate or its transmit rate strictly exceeds
/// the configured bound.
pub fn sample_band(rx: u64, tx: u64, rx_th: u64, tx_th: u64) -> (r: BandReport)
    ensures
        r.rx_over == (rx > rx_th),
        r.tx_over == (tx > tx_th),
{
    BandReport { rx_over: rx > rx_th, tx_over: tx > tx_th }
}

/// Whether a flagged interface is reported at all: it is reported exactly
/// when at least one side is over its threshold.
pub fn band_flagged(r: &BandReport) -> (f: bool)
    ensures
        f == (r.rx_over || r.tx_over),
{
    r.rx_over || r.tx_over
}

} // verus!
