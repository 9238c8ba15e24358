use triage::cli::default_config_path;
use triage::config::DiskConfig;
use triage::config::NetworkConfig;
use triage::config::cpu_config_ok;
use triage::units::band_flagged;
use triage::units::get_disk_params;
use triage::units::network_thresholds;
use triage::units::parse_size;
use triage::units::sample_band;

#[test]
fn parses_decimal_and_binary_units() {
    assert_eq!(parse_size("1kb"), Some(1_000));
    assert_eq!(parse_size("1KiB"), Some(1_024));
    assert_eq!(parse_size("10MB"), Some(10_000_000));
    assert_eq!(parse_size("500MB"), Some(500_000_000));
    assert_eq!(parse_size("7"), Some(7));
}

#[test]
fn rejects_malformed_sizes() {
    assert_eq!(parse_size("not a size"), None);
    assert_eq!(parse_size(""), None);
}

#[test]
fn disk_params_follow_the_threshold_string() {
    let good = DiskConfig {
        scan_paths: vec!["/var".to_string(), "/tmp".to_string()],
        size_threshold: "500MB".to_string(),
    };
    let (paths, threshold) = get_disk_params(&good).expect("threshold parses");
    assert_eq!(paths, vec!["/var".to_string(), "/tmp".to_string()]);
    assert_eq!(threshold, 500_000_000);

    let bad = DiskConfig {
        scan_paths: vec!["/var".to_string()],
        size_threshold: "many bytes".to_string(),
    };
    assert!(get_disk_params(&bad).is_none());
}

#[test]
fn network_thresholds_need_both_rates() {
    let good = NetworkConfig {
        threshold_rx: "1MB".to_string(),
        threshold_tx: "2MiB".to_string(),
    };
    assert_eq!(network_thresholds(&good), Some((1_000_000, 2_097_152)));

    let bad = NetworkConfig {
        threshold_rx: "fast".to_string(),
        threshold_tx: "2MiB".to_string(),
    };
    assert_eq!(network_thresholds(&bad), None);
}

#[test]
fn band_is_strictly_above_threshold() {
    let r = sample_band(100, 200, 100, 200);
    assert!(!r.rx_over);
    assert!(!r.tx_over);
    assert!(!band_flagged(&r));

    let r = sample_band(101, 200, 100, 200);
    assert!(r.rx_over);
    assert!(!r.tx_over);
    assert!(band_flagged(&r));

    let r = sample_band(50, 201, 100, 200);
    assert!(!r.rx_over);
    assert!(r.tx_over);
    assert!(band_flagged(&r));
}

#[test]
fn cpu_config_needs_one_threshold() {
    assert!(cpu_config_ok(true, false));
    assert!(cpu_config_ok(false, true));
    assert!(cpu_config_ok(true, true));
    assert!(!cpu_config_ok(false, false));
}

#[test]
fn default_configuration_file_name() {
    assert_eq!(default_config_path(), "triage.yaml".to_string());
}
