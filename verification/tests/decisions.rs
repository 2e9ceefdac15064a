use ndi_client::config::{Config, ScreenConfig};
use ndi_client::ndi::{describe_sources, ReceiverRegistry};
use ndi_client::renderer::{
    choose_surface_format, monitors_to_launch, synchronize_screens, window_event_action, window_title,
    WindowAction, WindowInput,
};
use ndi_client::source_selector::{MonitorId, SourceSelector};

fn id(name: &str) -> MonitorId {
    MonitorId::from(name.to_string())
}

fn selector_for(monitors: &[&str]) -> SourceSelector {
    let screens = monitors
        .iter()
        .map(|m| ScreenConfig { monitor: id(m), source: format!("SRC {m}") })
        .collect();
    SourceSelector::new(Some(Config { screens, synchronize_screens: false }))
}

#[test]
fn describing_no_sources_gives_none() {
    assert!(describe_sources(Vec::new()).is_empty());
}

#[test]
fn sources_are_described_by_name_and_position() {
    let described = describe_sources(vec!["A (1)".to_string(), "B (2)".to_string()]);
    assert_eq!(described.len(), 2);
    assert_eq!(described[0].name, "A (1)");
    assert_eq!(described[0].source, 0);
    assert_eq!(described[1].name, "B (2)");
    assert_eq!(described[1].source, 1);
}

#[test]
fn receiver_only_for_monitor_with_window() {
    let registry = ReceiverRegistry::new();
    assert!(registry.needs_receiver(&id("HDMI-1").with_handle(1)));
    assert!(!registry.needs_receiver(&id("HDMI-1")));
}

#[test]
fn a_monitor_gets_one_receiver() {
    let mut registry = ReceiverRegistry::new();
    assert!(registry.record_started(id("HDMI-1").with_handle(1)));
    assert!(!registry.needs_receiver(&id("HDMI-1").with_handle(1)));
    assert!(!registry.needs_receiver(&id("HDMI-1").with_handle(2)));
    assert!(!registry.record_started(id("HDMI-1").with_handle(2)));
    assert!(registry.needs_receiver(&id("DP-2").with_handle(3)));
}

#[test]
fn monitor_without_window_is_not_recorded() {
    let mut registry = ReceiverRegistry::new();
    assert!(!registry.record_started(id("HDMI-1")));
    assert!(registry.needs_receiver(&id("HDMI-1").with_handle(4)));
}

#[test]
fn launch_configured_monitors_without_windows() {
    let selector = selector_for(&["HDMI-1", "DP-2", "DP-3"]);
    let available = vec![id("eDP-1"), id("HDMI-1"), id("DP-2"), id("DP-3")];
    let launched = vec![id("DP-2")];
    assert_eq!(monitors_to_launch(&selector, &available, &launched), vec![1, 3]);
}

#[test]
fn a_monitor_reported_twice_gets_one_window() {
    let selector = selector_for(&["HDMI-1"]);
    let available = vec![id("HDMI-1"), id("HDMI-1")];
    assert_eq!(monitors_to_launch(&selector, &available, &Vec::new()), vec![0]);
}

#[test]
fn nothing_to_launch_when_all_have_windows() {
    let selector = selector_for(&["HDMI-1"]);
    let available = vec![id("HDMI-1")];
    let launched = vec![id("HDMI-1").with_handle(2)];
    assert!(monitors_to_launch(&selector, &available, &launched).is_empty());
}

#[test]
fn second_pass_opens_no_window() {
    let selector = selector_for(&["HDMI-1", "DP-2"]);
    let available = vec![id("HDMI-1"), id("DP-2"), id("HDMI-1"), id("eDP-1")];
    let first = monitors_to_launch(&selector, &available, &Vec::new());
    assert_eq!(first, vec![0, 1]);
    let launched: Vec<MonitorId> = first.iter().map(|&i| available[i].clone().with_handle(i as u64)).collect();
    assert!(monitors_to_launch(&selector, &available, &launched).is_empty());
}

#[test]
fn title_names_the_monitor() {
    assert_eq!(window_title(&id("HDMI-1")), "NDI Client HDMI-1");
    assert_eq!(window_title(&id("")), "NDI Client ");
}

#[test]
fn first_srgb_format_is_chosen() {
    assert_eq!(choose_surface_format(&vec![false, true, true]), 1);
    assert_eq!(choose_surface_format(&vec![true]), 0);
}

#[test]
fn first_format_when_none_is_srgb() {
    assert_eq!(choose_surface_format(&vec![false, false]), 0);
}

#[test]
fn resize_to_positive_size() {
    assert_eq!(
        window_event_action(WindowInput::Resized { width: 1920, height: 1080 }, true),
        WindowAction::Resize { width: 1920, height: 1080 }
    );
}

#[test]
fn resize_to_empty_size_is_ignored() {
    assert_eq!(window_event_action(WindowInput::Resized { width: 0, height: 1080 }, true), WindowAction::Ignore);
    assert_eq!(window_event_action(WindowInput::Resized { width: 1920, height: 0 }, true), WindowAction::Ignore);
}

#[test]
fn events_of_unknown_windows_are_ignored() {
    assert_eq!(window_event_action(WindowInput::Resized { width: 10, height: 10 }, false), WindowAction::Ignore);
    assert_eq!(window_event_action(WindowInput::RedrawRequested, false), WindowAction::Ignore);
}

#[test]
fn redraw_draws() {
    assert_eq!(window_event_action(WindowInput::RedrawRequested, true), WindowAction::Redraw);
}

#[test]
fn escape_exits_from_any_window() {
    assert_eq!(window_event_action(WindowInput::KeyboardInput { escape: true }, true), WindowAction::Exit);
    assert_eq!(window_event_action(WindowInput::KeyboardInput { escape: true }, false), WindowAction::Exit);
    assert_eq!(window_event_action(WindowInput::KeyboardInput { escape: false }, true), WindowAction::Ignore);
    assert_eq!(window_event_action(WindowInput::Other, true), WindowAction::Ignore);
}

#[test]
fn synchronizing_follows_the_config() {
    assert!(!synchronize_screens(None));
    let on = Config { screens: Vec::new(), synchronize_screens: true };
    assert!(synchronize_screens(Some(&on)));
    assert!(!synchronize_screens(Some(&Config::default())));
}
