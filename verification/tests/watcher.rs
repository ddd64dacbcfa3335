use file_mentions::config::Config;
use file_mentions::index::watcher::{
    debounce_interval_ms, periodic_refresh_enabled, should_ignore_event, watch_step,
    watching_enabled, WatchAction, WatchInput,
};

fn strings(items: &[&str]) -> Vec<String> {
    items.iter().map(|s| s.to_string()).collect()
}

#[test]
fn events_inside_excluded_directories_are_ignored() {
    let config = Config::default();
    assert!(should_ignore_event(&strings(&["/ws/node_modules/pkg/index.js"]), &config));
    assert!(should_ignore_event(
        &strings(&["/ws/.git/HEAD", "C:\\ws\\target\\debug\\x"]),
        &config
    ));
    assert!(!should_ignore_event(&strings(&["/ws/src/main.rs"]), &config));
    assert!(!should_ignore_event(&strings(&["/ws/.git/HEAD", "/ws/src/main.rs"]), &config));
    assert!(should_ignore_event(&Vec::new(), &config));
}

#[test]
fn empty_needles_never_match() {
    let mut config = Config::default();
    config.index.exclude = strings(&["**/", "/**", "**/**/"]);
    assert!(!should_ignore_event(&strings(&["/ws/a"]), &config));
    config.index.exclude = strings(&["**/**/logs/**/**"]);
    assert!(should_ignore_event(&strings(&["/ws/logs/a"]), &config));
}

#[test]
fn debounce_has_a_floor() {
    let mut config = Config::default();
    assert_eq!(debounce_interval_ms(&config), 700);
    config.index.debounce_ms = 5;
    assert_eq!(debounce_interval_ms(&config), 100);
}

#[test]
fn watcher_debounces_relevant_events() {
    assert_eq!(watch_step(false, WatchInput::Event { ignored: true }), (false, WatchAction::Wait));
    assert_eq!(
        watch_step(false, WatchInput::Event { ignored: false }),
        (true, WatchAction::RecordEvent)
    );
    assert_eq!(watch_step(true, WatchInput::Timeout { quiet: false }), (true, WatchAction::Wait));
    assert_eq!(watch_step(true, WatchInput::Timeout { quiet: true }), (false, WatchAction::Rebuild));
    assert_eq!(watch_step(false, WatchInput::Timeout { quiet: true }), (false, WatchAction::Wait));
    assert_eq!(watch_step(true, WatchInput::Error), (true, WatchAction::LogError));
    assert_eq!(watch_step(true, WatchInput::Disconnected), (true, WatchAction::Stop));
}

#[test]
fn watching_and_periodic_refresh_follow_the_settings() {
    let mut config = Config::default();
    assert!(watching_enabled(&config));
    assert!(periodic_refresh_enabled(&config));
    config.index.watch_files = false;
    config.index.refresh_ttl_seconds = 0;
    assert!(!watching_enabled(&config));
    assert!(!periodic_refresh_enabled(&config));
    config.index.refresh_ttl_seconds = 1;
    assert!(periodic_refresh_enabled(&config));
}
