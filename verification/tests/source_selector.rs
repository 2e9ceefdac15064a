use ndi_client::config::{Config, ScreenConfig};
use ndi_client::ndi::NdiSource;
use ndi_client::source_selector::MonitorId;
use ndi_client::source_selector::SourceSelector;

fn screen(monitor: &str, source: &str) -> ScreenConfig {
    ScreenConfig { monitor: MonitorId::from(monitor.to_string()), source: source.to_string() }
}

fn source(name: &str, handle: u64) -> NdiSource {
    NdiSource { name: name.to_string(), source: handle }
}

fn config(screens: Vec<ScreenConfig>) -> Config {
    Config { screens, synchronize_screens: false }
}

fn sorted_targets(selector: &SourceSelector) -> Vec<(String, Option<u64>, u64)> {
    let mut targets: Vec<(String, Option<u64>, u64)> = selector
        .targets()
        .into_iter()
        .map(|(id, handle)| {
            let window = if id.has_window_handle() { Some(id.window_id()) } else { None };
            (id.to_string(), window, handle)
        })
        .collect();
    targets.sort();
    targets
}

#[test]
fn monitor_id_from_name_has_no_window() {
    let id = MonitorId::from("HDMI-1".to_string());
    assert_eq!(id.name(), "HDMI-1");
    assert!(!id.has_window_handle());
}

#[test]
fn with_handle_records_window() {
    let id = MonitorId::from("DP-2".to_string()).with_handle(42);
    assert!(id.has_window_handle());
    assert_eq!(id.window_id(), 42);
    assert_eq!(id.name(), "DP-2");
}

#[test]
fn monitor_ids_compare_by_name_only() {
    let plain = MonitorId::from("HDMI-1".to_string());
    let with_window = plain.clone().with_handle(9);
    assert_eq!(plain, with_window);
    assert_ne!(plain, MonitorId::from("HDMI-2".to_string()));
}

#[test]
fn monitor_id_string_round_trip() {
    let name = "Built-in Retina Display".to_string();
    let back: String = String::from(MonitorId::from(name.clone()));
    assert_eq!(back, name);
}

#[test]
fn reported_monitor_name_matches_by_name() {
    let id = MonitorId::from("HDMI-1".to_string()).with_handle(3);
    assert!(id.is_monitor_named(Some("HDMI-1".to_string())));
    assert!(!id.is_monitor_named(Some("HDMI-2".to_string())));
    assert!(!id.is_monitor_named(None));
    assert!(MonitorId::from(String::new()).is_monitor_named(None));
}

#[test]
fn display_form_is_the_name() {
    let id = MonitorId::from("HDMI-1".to_string()).with_handle(3);
    assert_eq!(id.to_string(), "HDMI-1");
}

#[test]
fn unnamed_monitor_gets_empty_name() {
    assert_eq!(MonitorId::from_monitor_name(None).name(), "");
    assert_eq!(MonitorId::from_monitor_name(Some("eDP-1".to_string())).name(), "eDP-1");
}

#[test]
fn clone_keeps_name_and_window() {
    let id = MonitorId::from("HDMI-1".to_string()).with_handle(5);
    let copy = id.clone();
    assert_eq!(copy.name(), "HDMI-1");
    assert_eq!(copy.window_id(), 5);
}

#[test]
fn no_config_configures_nothing() {
    let selector = SourceSelector::new(None);
    assert!(!selector.is_configured(&MonitorId::from("HDMI-1".to_string())));
    assert!(selector.targets().is_empty());
}

#[test]
fn default_selector_is_empty() {
    let selector = SourceSelector::default();
    assert!(!selector.is_configured(&MonitorId::from("HDMI-1".to_string())));
    assert!(selector.targets().is_empty());
}

#[test]
fn configured_iff_named_by_a_screen() {
    let selector = SourceSelector::new(Some(config(vec![screen("HDMI-1", "CAM (1)"), screen("DP-2", "CAM (2)")])));
    assert!(selector.is_configured(&MonitorId::from("HDMI-1".to_string())));
    assert!(selector.is_configured(&MonitorId::from("DP-2".to_string()).with_handle(1)));
    assert!(!selector.is_configured(&MonitorId::from("eDP-1".to_string())));
}

#[test]
fn no_target_before_sources_are_discovered() {
    let selector = SourceSelector::new(Some(config(vec![screen("HDMI-1", "CAM (1)")])));
    assert!(selector.targets().is_empty());
}

#[test]
fn targets_are_configured_monitors_with_available_sources() {
    let mut selector = SourceSelector::new(Some(config(vec![
        screen("HDMI-1", "CAM (1)"),
        screen("DP-2", "CAM (2)"),
        screen("DP-3", "CAM (3)"),
    ])));
    selector.update_available_sources(vec![source("CAM (2)", 0), source("CAM (1)", 1), source("OTHER", 2)]);
    assert_eq!(
        sorted_targets(&selector),
        vec![("DP-2".to_string(), None, 0), ("HDMI-1".to_string(), None, 1)]
    );
}

#[test]
fn last_screen_for_a_monitor_wins() {
    let mut selector = SourceSelector::new(Some(config(vec![screen("HDMI-1", "CAM (1)"), screen("HDMI-1", "CAM (2)")])));
    selector.update_available_sources(vec![source("CAM (1)", 0), source("CAM (2)", 1)]);
    assert_eq!(sorted_targets(&selector), vec![("HDMI-1".to_string(), None, 1)]);
}

#[test]
fn last_source_of_a_name_wins() {
    let mut selector = SourceSelector::new(Some(config(vec![screen("HDMI-1", "CAM (1)")])));
    selector.update_available_sources(vec![source("CAM (1)", 4), source("CAM (1)", 7)]);
    assert_eq!(sorted_targets(&selector), vec![("HDMI-1".to_string(), None, 7)]);
}

#[test]
fn update_available_sources_replaces_the_sources() {
    let mut selector = SourceSelector::new(Some(config(vec![screen("HDMI-1", "CAM (1)"), screen("DP-2", "CAM (2)")])));
    selector.update_available_sources(vec![source("CAM (1)", 0)]);
    assert_eq!(sorted_targets(&selector), vec![("HDMI-1".to_string(), None, 0)]);
    selector.update_available_sources(vec![source("CAM (2)", 0)]);
    assert_eq!(sorted_targets(&selector), vec![("DP-2".to_string(), None, 0)]);
    selector.update_available_sources(vec![]);
    assert!(selector.targets().is_empty());
    assert!(selector.is_configured(&MonitorId::from("HDMI-1".to_string())));
}

#[test]
fn recorded_window_shows_in_targets() {
    let mut selector = SourceSelector::new(Some(config(vec![screen("HDMI-1", "CAM (1)"), screen("DP-2", "CAM (2)")])));
    selector.update_available_sources(vec![source("CAM (1)", 0), source("CAM (2)", 1)]);
    selector.update_monitor(MonitorId::from("HDMI-1".to_string()).with_handle(77));
    assert_eq!(
        sorted_targets(&selector),
        vec![("DP-2".to_string(), None, 1), ("HDMI-1".to_string(), Some(77), 0)]
    );
}

#[test]
fn update_monitor_of_unconfigured_monitor_changes_nothing() {
    let mut selector = SourceSelector::new(Some(config(vec![screen("HDMI-1", "CAM (1)")])));
    selector.update_available_sources(vec![source("CAM (1)", 0)]);
    selector.update_monitor(MonitorId::from("eDP-1".to_string()).with_handle(5));
    assert!(!selector.is_configured(&MonitorId::from("eDP-1".to_string())));
    assert_eq!(sorted_targets(&selector), vec![("HDMI-1".to_string(), None, 0)]);
}

#[test]
fn update_monitor_keeps_the_source() {
    let mut selector = SourceSelector::new(Some(config(vec![screen("HDMI-1", "CAM (1)")])));
    selector.update_monitor(MonitorId::from("HDMI-1".to_string()).with_handle(1));
    selector.update_monitor(MonitorId::from("HDMI-1".to_string()).with_handle(2));
    selector.update_available_sources(vec![source("CAM (1)", 3)]);
    assert_eq!(sorted_targets(&selector), vec![("HDMI-1".to_string(), Some(2), 3)]);
}

#[test]
fn default_config_is_empty() {
    let config = Config::default();
    assert!(config.screens.is_empty());
    assert!(!config.synchronize_screens);
}

#[test]
fn repeated_monitor_keeps_its_first_window() {
    let first = ScreenConfig { monitor: MonitorId::from("HDMI-1".to_string()).with_handle(5), source: "CAM (1)".to_string() };
    let mut selector = SourceSelector::new(Some(config(vec![first, screen("HDMI-1", "CAM (2)")])));
    selector.update_available_sources(vec![source("CAM (1)", 0), source("CAM (2)", 1)]);
    assert_eq!(sorted_targets(&selector), vec![("HDMI-1".to_string(), Some(5), 1)]);
}

#[test]
fn repeated_discovery_changes_nothing() {
    let mut once = SourceSelector::new(Some(config(vec![screen("HDMI-1", "CAM (1)"), screen("DP-2", "CAM (9)")])));
    let batch = vec![source("CAM (1)", 0), source("CAM (2)", 1)];
    once.update_available_sources(batch.clone());
    let expected = sorted_targets(&once);
    once.update_available_sources(batch);
    assert_eq!(sorted_targets(&once), expected);
    assert!(once.is_configured(&MonitorId::from("DP-2".to_string())));
}

#[test]
fn ndi_source_clone_keeps_name_and_handle() {
    let original = source("CAM (1)", 6);
    let copy = original.clone();
    assert_eq!(copy.name, "CAM (1)");
    assert_eq!(copy.source, 6);
}

#[test]
fn targets_over_a_run() {
    let mut selector = SourceSelector::new(Some(config(vec![
        screen("HDMI-1", "CAM (1)"),
        screen("DP-2", "CAM (2)"),
        screen("HDMI-1", "CAM (3)"),
        screen("DP-3", "CAM (4)"),
    ])));
    selector.update_monitor(MonitorId::from("HDMI-1".to_string()).with_handle(1));
    selector.update_available_sources(vec![source("CAM (1)", 0), source("CAM (3)", 1)]);
    selector.update_monitor(MonitorId::from("DP-2".to_string()).with_handle(2));
    selector.update_monitor(MonitorId::from("HDMI-1".to_string()).with_handle(3));
    selector.update_available_sources(vec![source("CAM (3)", 0), source("CAM (2)", 1), source("CAM (3)", 2)]);
    assert_eq!(
        sorted_targets(&selector),
        vec![("DP-2".to_string(), Some(2), 1), ("HDMI-1".to_string(), Some(3), 2)]
    );
}

#[test]
fn targets_twice_gives_the_same_targets() {
    let mut selector = SourceSelector::new(Some(config(vec![
        screen("HDMI-1", "CAM (1)"),
        screen("DP-2", "CAM (2)"),
        screen("DP-3", "CAM (3)"),
    ])));
    selector.update_available_sources(vec![source("CAM (1)", 0), source("CAM (2)", 1), source("CAM (3)", 2)]);
    selector.update_monitor(MonitorId::from("DP-2".to_string()).with_handle(8));
    let first = sorted_targets(&selector);
    let second = sorted_targets(&selector);
    assert_eq!(first, second);
    assert_eq!(first.len(), 3);
    assert!(selector.is_configured(&MonitorId::from("DP-3".to_string())));
}
