use config_collector::collections::TextMap;
use config_collector::config::{
    is_within, AppConfig, ChannelMemory, ClashConverterConfig, ClashProtocolRule, InputSourceMode,
    PerformanceProfile, Phase5TelegramConfig, ProtocolRule, ProxyType, SentHistory, TesterConfig,
    Timestamp, DEFAULT_PROTOCOLS, DEFAULT_TARGETS,
};

fn at(secs: i64, nanos: u32) -> Timestamp {
    Timestamp { secs, nanos }
}

#[test]
fn first_settings_are_those_of_a_medium_machine() {
    let c = AppConfig::default();
    assert_eq!(c.interval_minutes, 15);
    assert_eq!(c.max_pages_per_channel, 10);
    assert_eq!(c.proxy_type, ProxyType::Direct);
    assert_eq!(c.proxy_port, 10808);
    assert_eq!(c.output_directory, "output");
    assert_eq!(c.input_mode, InputSourceMode::LocalTextFolder);
    assert_eq!(c.protocol_rules.len(), DEFAULT_PROTOCOLS.len());
    assert!(c.protocol_rules.get("vless").unwrap().enabled);
    assert_eq!(c.clash_converter.protocol_rules.get("ss").unwrap().priority, 2);
    assert_eq!(c.phase5_telegram.post_config_count, 10);
    assert_eq!(InputSourceMode::default(), InputSourceMode::TelegramChannels);
    assert!(DEFAULT_TARGETS.starts_with("@AHWAZIConnect\n"));
}

#[test]
fn tester_defaults_name_the_program_of_the_platform() {
    assert_eq!(TesterConfig::for_platform(true).xray_knife_path, "xray-knife.exe");
    assert_eq!(TesterConfig::for_platform(false).xray_knife_path, "xray-knife");
    assert_eq!(TesterConfig::default().speed_test_top_count, 300);
    assert_eq!(ClashProtocolRule::default().priority, 99);
    assert!(!Phase5TelegramConfig::default().enabled);
    assert_eq!(ClashConverterConfig::default().protocol_rules.len(), 5);
}

#[test]
fn profiles_set_the_pace() {
    let mut c = AppConfig::default();
    c.performance = PerformanceProfile::WeakPC;
    c.apply_profile_defaults();
    assert_eq!((c.delay_ms, c.timeout_secs, c.concurrent_channels), (5000, 30, 1));
    assert_eq!(c.tester.concurrent_tests, 20);
    c.performance = PerformanceProfile::StrongPC;
    c.apply_profile_defaults();
    c.apply_profile_defaults();
    assert_eq!((c.delay_ms, c.timeout_secs, c.concurrent_channels), (500, 10, 8));
    assert_eq!(c.tester.concurrent_tests, 100);
    c.performance = PerformanceProfile::Custom;
    c.delay_ms = 1;
    c.apply_profile_defaults();
    assert_eq!(c.delay_ms, 1);
}

#[test]
fn defaults_are_what_their_profile_asks_for() {
    let mut c = AppConfig::default();
    c.apply_profile_defaults();
    assert_eq!((c.delay_ms, c.timeout_secs, c.concurrent_channels), (2000, 15, 3));
    assert_eq!(c.tester.concurrent_tests, 50);
}

#[test]
fn a_preset_leaves_no_trace_of_the_other() {
    let mut t = TesterConfig::for_platform(true);
    t.apply_extreme_preset();
    assert_eq!(t.max_delay_ms, 30000);
    assert_eq!(t.ping_test_url, "https://telegram.org/favicon.ico");
    assert!(t.allow_insecure);
    t.apply_normal_preset();
    assert_eq!(t.max_delay_ms, 5000);
    assert_eq!(t.ping_url_preset, 4);
    assert_eq!(t.timeout_secs, 10);
    assert!(!t.allow_insecure);
}

#[test]
fn loaded_settings_are_completed() {
    let mut c = AppConfig::default();
    c.protocol_rules = TextMap::new();
    c.protocol_rules.insert("ss".to_string(), ProtocolRule { enabled: false, max_count: 3 });
    c.clash_converter.protocol_rules = TextMap::new();
    c.interval_minutes = 99;
    let c = AppConfig::or_default(Some(c));
    assert_eq!(c.interval_minutes, 99);
    assert_eq!(c.protocol_rules.len(), DEFAULT_PROTOCOLS.len());
    assert!(!c.protocol_rules.get("ss").unwrap().enabled);
    assert_eq!(c.clash_converter.protocol_rules.get("hysteria2").unwrap().priority, 5);
    assert_eq!(AppConfig::or_default(None).interval_minutes, 15);
}

#[test]
fn days_are_counted_back_from_now() {
    let now = at(10 * 86400, 5);
    assert!(is_within(at(9 * 86400, 5), now, 1));
    assert!(!is_within(at(9 * 86400, 4), now, 1));
    assert!(!is_within(at(9 * 86400, 5), now, -3));
    assert!(is_within(at(10 * 86400, 5), now, -3));
}

#[test]
fn forgetting_twice_is_forgetting_once() {
    let now = at(10 * 86400, 0);
    let mut h = SentHistory::default();
    h.sent_at.insert("old".to_string(), at(86400, 0));
    h.sent_at.insert("new".to_string(), at(9 * 86400 + 1, 0));
    h.prune_at(now, 1);
    assert_eq!(h.sent_at.len(), 1);
    assert_eq!(h.sent_at.get("new"), Some(&at(9 * 86400 + 1, 0)));
    h.prune_at(now, 1);
    assert_eq!(h.sent_at.len(), 1);
}

#[test]
fn the_clock_forgets_what_is_long_gone() {
    let mut h = SentHistory::default();
    h.sent_at.insert("ancient".to_string(), at(0, 0));
    h.sent_at.insert("just now".to_string(), Timestamp::now());
    h.prune(1);
    assert!(!h.sent_at.contains_key("ancient"));
    assert!(h.sent_at.contains_key("just now"));
    assert_eq!(ChannelMemory::default().last_seen_ids.len(), 0);
}

#[test]
fn present_instant_lies_after_the_start() {
    let t = Timestamp::now();
    assert!(t.secs > 0);
    assert!(t.nanos < 1_000_000_000);
}
