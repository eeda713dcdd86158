use styx::config::{
    address_text, default_active_ms, default_idle_ms, default_miss_threshold, edge_by_name,
    expand_path, parse_edge, resolve_hosts, resolve_monitors, HeartbeatConfig, SenderConfig,
};
use styx::geometry::Edge;

fn config() -> SenderConfig {
    SenderConfig {
        receiver_host: None,
        receiver_hosts: None,
        receiver_port: 4242,
        monitor: None,
        monitors: None,
        edge: "left".to_string(),
        keyboard_device: None,
        heartbeat: HeartbeatConfig::default(),
    }
}

fn strings(list: &[&str]) -> Vec<String> {
    list.iter().map(|s| s.to_string()).collect()
}

#[test]
fn heartbeat_defaults() {
    assert_eq!(default_active_ms(), 1000);
    assert_eq!(default_idle_ms(), 5000);
    assert_eq!(default_miss_threshold(), 3);
    assert_eq!(
        HeartbeatConfig::default(),
        HeartbeatConfig { active_interval_ms: 1000, idle_interval_ms: 5000, miss_threshold: 3 }
    );
}

#[test]
fn edges_parse_in_any_case() {
    assert_eq!(parse_edge("left"), Ok(Edge::Left));
    assert_eq!(parse_edge("RIGHT"), Ok(Edge::Right));
    assert_eq!(parse_edge("Top"), Ok(Edge::Top));
    assert_eq!(parse_edge("bOtToM"), Ok(Edge::Bottom));
}

#[test]
fn other_edges_are_refused() {
    assert_eq!(
        parse_edge("Middle"),
        Err("invalid edge: 'Middle' (expected left/right/top/bottom)".to_string())
    );
    assert_eq!(
        parse_edge(""),
        Err("invalid edge: '' (expected left/right/top/bottom)".to_string())
    );
    assert_eq!(
        parse_edge("ÉDGE"),
        Err("invalid edge: 'ÉDGE' (expected left/right/top/bottom)".to_string())
    );
    assert!(parse_edge(" left").is_err());
}

#[test]
fn edges_are_known_by_their_small_names() {
    assert_eq!(edge_by_name("top"), Some(Edge::Top));
    assert_eq!(edge_by_name("Top"), None);
}

#[test]
fn a_list_of_monitors_is_taken_as_it_is() {
    let mut cfg = config();
    cfg.monitors = Some(strings(&["HDMI-A-1", "DP-1"]));
    assert_eq!(resolve_monitors(&cfg), Ok(strings(&["HDMI-A-1", "DP-1"])));
}

#[test]
fn a_monitor_and_a_list_is_an_error() {
    let mut cfg = config();
    cfg.monitor = Some("DP-1".to_string());
    cfg.monitors = Some(strings(&["HDMI-A-1", "DP-2"]));
    assert_eq!(
        resolve_monitors(&cfg),
        Err("config must not set both `monitor` and `monitors` in [sender]".to_string())
    );
}

#[test]
fn a_single_monitor_is_a_list_of_one() {
    let mut cfg = config();
    cfg.monitor = Some("DP-1".to_string());
    assert_eq!(resolve_monitors(&cfg), Ok(strings(&["DP-1"])));
}

#[test]
fn an_empty_list_of_monitors_is_an_error() {
    let mut cfg = config();
    cfg.monitors = Some(Vec::new());
    cfg.monitor = Some("DP-1".to_string());
    assert_eq!(
        resolve_monitors(&cfg),
        Err("`monitors` is empty; list at least one monitor".to_string())
    );
}

#[test]
fn no_monitor_at_all_is_an_error() {
    assert_eq!(
        resolve_monitors(&config()),
        Err("config must set either `monitor` or `monitors` in [sender]".to_string())
    );
}

#[test]
fn hosts_are_tried_once_and_in_order() {
    let mut cfg = config();
    cfg.receiver_host = Some("10.0.0.1".to_string());
    cfg.receiver_hosts = Some(strings(&["10.0.0.2", "10.0.0.1", "10.0.0.3", "10.0.0.2"]));
    assert_eq!(resolve_hosts(&cfg), Ok(strings(&["10.0.0.1", "10.0.0.2", "10.0.0.3"])));
    cfg.receiver_host = None;
    assert_eq!(resolve_hosts(&cfg), Ok(strings(&["10.0.0.2", "10.0.0.1", "10.0.0.3"])));
    cfg.receiver_hosts = None;
    cfg.receiver_host = Some("10.0.0.9".to_string());
    assert_eq!(resolve_hosts(&cfg), Ok(strings(&["10.0.0.9"])));
}

#[test]
fn no_host_is_an_error() {
    let mut cfg = config();
    let expected = Err("config must set receiver_host or receiver_hosts".to_string());
    assert_eq!(resolve_hosts(&cfg), expected);
    cfg.receiver_hosts = Some(Vec::new());
    assert_eq!(resolve_hosts(&cfg), expected);
}

#[test]
fn addresses_are_written_with_their_port() {
    assert_eq!(address_text("192.168.1.100", 4242), "192.168.1.100:4242");
    assert_eq!(address_text("h", 0), "h:0");
    assert_eq!(address_text("h", 65535), "h:65535");
    assert_eq!(address_text("h", 10), "h:10");
}

#[test]
fn tilde_stands_for_the_home_directory() {
    let path = "~/.config/styx/config.toml";
    assert_eq!(
        expand_path(path, Some("/home/ann"), Some("/root")),
        "/home/ann/.config/styx/config.toml"
    );
    assert_eq!(expand_path(path, None, Some("/root")), "/root/.config/styx/config.toml");
    assert_eq!(expand_path(path, None, None), path);
}

#[test]
fn other_paths_stay_as_they_are() {
    assert_eq!(expand_path("/etc/styx.toml", Some("/home/ann"), None), "/etc/styx.toml");
    assert_eq!(expand_path("~ann/x", Some("/home/ann"), None), "~ann/x");
    assert_eq!(expand_path("~", Some("/home/ann"), None), "~");
    assert_eq!(expand_path("", Some("/home/ann"), None), "");
}

#[test]
fn paths_join_as_std_joins_them() {
    for home in ["/home/ann", "/home/ann/", "", "/"] {
        for rest in ["x", "", "/abs", "a/b"] {
            let expected = std::path::PathBuf::from(home).join(rest);
            let path = format!("~/{rest}");
            assert_eq!(expand_path(&path, Some(home), None), expected.to_str().unwrap());
        }
    }
}
