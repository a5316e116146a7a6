use watch_bridge::startup::{
    bind_address, parse_startup, Startup, UsageError, WatchSettings, HEALTH_ROUTE, POLL_ROUTE,
};

fn args(parts: &[&str]) -> Vec<String> {
    parts.iter().map(|p| p.to_string()).collect()
}

#[test]
fn path_and_port_start_the_bridge() {
    let parsed = parse_startup(&args(&["bridge", "/srv/pac", "8080"]));
    assert_eq!(
        parsed,
        Ok(Startup {
            watch_target: "/srv/pac".to_string(),
            bind_address: "127.0.0.1:8080".to_string(),
            settings: WatchSettings {
                poll_interval_secs: 1,
                compare_contents: true,
                recursive: true,
            },
        })
    );
}

#[test]
fn arguments_behind_the_port_are_ignored() {
    let parsed = parse_startup(&args(&["bridge", "/srv/pac", "8080", "extra", "more"]));
    let startup = parsed.expect("three arguments are enough");
    assert_eq!(startup.watch_target, "/srv/pac");
    assert_eq!(startup.bind_address, "127.0.0.1:8080");
}

#[test]
fn a_missing_port_is_a_usage_error() {
    let parsed = parse_startup(&args(&["bridge", "/srv/pac"]));
    assert_eq!(
        parsed,
        Err(UsageError {
            message: "Usage: bridge <file_path> <port>".to_string(),
        })
    );
}

#[test]
fn a_missing_path_is_a_usage_error() {
    let parsed = parse_startup(&args(&["./target/bridge"]));
    assert_eq!(
        parsed,
        Err(UsageError {
            message: "Usage: ./target/bridge <file_path> <port>".to_string(),
        })
    );
}

#[test]
fn no_arguments_at_all_are_a_usage_error_without_a_name() {
    let parsed = parse_startup(&Vec::new());
    assert_eq!(
        parsed,
        Err(UsageError {
            message: "Usage:  <file_path> <port>".to_string(),
        })
    );
}

#[test]
fn the_server_binds_the_loopback_interface() {
    assert_eq!(bind_address("3000"), "127.0.0.1:3000");
    assert_eq!(bind_address(""), "127.0.0.1:");
}

#[test]
fn the_watcher_scans_every_second_and_compares_contents() {
    let settings = WatchSettings::standard();
    assert_eq!(settings.poll_interval_secs, 1);
    assert!(settings.compare_contents);
    assert!(settings.recursive);
}

#[test]
fn the_routes_are_fixed() {
    assert_eq!(POLL_ROUTE, "/poll/v2rayU/pac/proxy.js");
    assert_eq!(HEALTH_ROUTE, "/health");
}
