use config_collector::collections::TextMap;
use config_collector::config::{AppConfig, Phase5TelegramConfig, TesterConfig, DEFAULT_TARGETS};
use config_collector::scraper::{AppEvent, LogLevel};
use config_collector::sender::{
    chunk_lines, escape_html, message_request, no_file_event, plan_messages, posted_event,
    read_configs, readiness, sending_event, sent_event, write_message, Readiness,
};
use config_collector::ui::{
    ascii_lowercase, choose_ping_preset, choose_speed_preset, direct_check_event,
    proxy_check_event, stands_out, AppState, Check,
};
use config_collector::updater::{
    find_entry, find_package, is_newer, log_updater, parse_version_parts, plan_app_update,
    plan_tester_update, read_release, release_address, unpack_program, Asset, Package, Release,
    Spot, Unpacked, UpdatePlan, TESTER_PROGRAM,
};
use std::io::Write;

fn owned(items: &[&str]) -> Vec<String> {
    items.iter().map(|s| s.to_string()).collect()
}

fn publisher() -> Phase5TelegramConfig {
    let mut c = Phase5TelegramConfig::default();
    c.enabled = true;
    c.bot_token = " token ".to_string();
    c.chat_id = " @chat ".to_string();
    c.post_config_count = 2;
    c
}

#[test]
fn markup_is_escaped() {
    assert_eq!(escape_html("a<b>&c&lt;"), "a&lt;b&gt;&amp;c&amp;lt;");
}

#[test]
fn lines_are_grouped() {
    let lines = owned(&["1", "2", "3"]);
    assert_eq!(chunk_lines(&lines, 2), vec![owned(&["1", "2"]), owned(&["3"])]);
    assert_eq!(chunk_lines(&lines, 0).len(), 3);
    assert_eq!(chunk_lines(&lines, 3), vec![lines.clone()]);
    assert_eq!(chunk_lines(&Vec::new(), 3).len(), 0);
    assert_eq!(chunk_lines(&lines, 2).concat(), lines);
}

#[test]
fn messages_are_posted_as_forms() {
    let r = message_request(&publisher(), "hello");
    assert_eq!(r.url, "https://api.telegram.org/bottoken/sendMessage");
    let form: Vec<(&str, &str)> = r.form.iter().map(|f| (f.0.as_str(), f.1.as_str())).collect();
    assert_eq!(
        form,
        vec![
            ("chat_id", "@chat"),
            ("text", "hello"),
            ("parse_mode", "HTML"),
            ("disable_web_page_preview", "true")
        ]
    );
}

#[test]
fn publishing_needs_credentials() {
    let mut c = publisher();
    assert_eq!(readiness(&c), Readiness::Ready);
    c.chat_id = "  ".to_string();
    assert_eq!(readiness(&c), Readiness::NoCredentials);
    c = publisher();
    c.bot_token = String::new();
    assert_eq!(readiness(&c), Readiness::NoCredentials);
    c.enabled = false;
    assert_eq!(readiness(&c), Readiness::Off);
}

#[test]
fn messages_frame_their_links() {
    let mut c = publisher();
    c.header_enabled = true;
    c.header_text = " <new> ".to_string();
    c.footer_enabled = true;
    c.footer_text = "   ".to_string();
    assert_eq!(
        write_message(&c, &owned(&["a&b", "c"])),
        "&lt;new&gt;\n<pre>\na&amp;b\nc\n</pre>"
    );
    c.header_enabled = false;
    c.footer_text = "bye".to_string();
    assert_eq!(write_message(&c, &owned(&["x"])), "<pre>\nx\n</pre>\nbye");
}

#[test]
fn files_become_messages() {
    let c = publisher();
    let ms = plan_messages(&c, " a \n\nb\nc\n");
    assert_eq!(ms.len(), 2);
    assert_eq!((ms[0].body.as_str(), ms[0].configs), ("<pre>\na\nb\n</pre>", 2));
    assert_eq!((ms[1].body.as_str(), ms[1].configs), ("<pre>\nc\n</pre>", 1));
    assert_eq!(plan_messages(&c, "\n \n").len(), 0);
    assert_eq!(read_configs("b\na\nb"), owned(&["b", "a", "b"]));
}

#[test]
fn versions_are_three_numbers() {
    assert_eq!(parse_version_parts(" v1.20.3 "), (1, 20, 3));
    assert_eq!(parse_version_parts("vv2.beta.7"), (2, 7, 0));
    assert_eq!(parse_version_parts("Unknown"), (0, 0, 0));
    assert_eq!(parse_version_parts("1.2.3.4"), (1, 2, 3));
}

#[test]
fn versions_are_ordered_by_their_numbers() {
    assert!(is_newer("1.10.0", "1.9.9"));
    assert!(is_newer("2", "1.9.9"));
    assert!(!is_newer("1.9.9", "1.9.9"));
    assert!(!is_newer("v1.9.8", "1.9.9"));
}

fn answer() -> Vec<u8> {
    b"{\"tag_name\":\"v2.0.0\",\"assets\":[\
      {\"name\":1},\
      {\"name\":\"notes.txt\",\"browser_download_url\":\"u0\"},\
      {\"name\":\"Tool-WINDOWS-64.ZIP\",\"browser_download_url\":\"u1\"},\
      {\"name\":\"App.EXE\",\"browser_download_url\":\"u2\"}]}"
        .to_vec()
}

#[test]
fn releases_are_read_from_answers() {
    let r = read_release(&answer()).unwrap();
    assert_eq!(r.tag, "v2.0.0");
    assert_eq!(r.assets.as_ref().unwrap().len(), 4);
    assert!(r.assets.as_ref().unwrap()[0].name.is_none());
    assert!(read_release(b"nothing").is_none());
    let empty = read_release(b"{}").unwrap();
    assert_eq!(empty.tag, "Unknown");
    assert!(empty.assets.is_none());
}

#[test]
fn newer_releases_are_downloaded() {
    let r = read_release(&answer()).unwrap();
    assert!(matches!(plan_app_update(&r, "1.9.0"), UpdatePlan::Download(u) if u == "u2"));
    assert!(matches!(plan_app_update(&r, "2.0.0"), UpdatePlan::UpToDate));
    let none = Release { tag: "9".to_string(), assets: None };
    assert!(matches!(plan_app_update(&none, "9"), UpdatePlan::NoAssets));
    let bare = Release { tag: "9".to_string(), assets: Some(Vec::new()) };
    assert!(matches!(plan_app_update(&bare, "1"), UpdatePlan::NoPackage));
}

#[test]
fn the_tester_is_updated_when_its_tag_differs() {
    let r = read_release(&answer()).unwrap();
    assert!(matches!(plan_tester_update(&r, &None), UpdatePlan::Download(u) if u == "u1"));
    let old = Some("v1".to_string());
    assert!(matches!(plan_tester_update(&r, &old), UpdatePlan::Download(_)));
    let same = Some(" v2.0.0\n".to_string());
    assert!(matches!(plan_tester_update(&r, &same), UpdatePlan::UpToDate));
    let none = Release { tag: "9".to_string(), assets: None };
    assert!(matches!(plan_tester_update(&none, &None), UpdatePlan::NoAssets));
}

#[test]
fn the_first_package_counts_even_without_an_address() {
    let files = vec![
        Asset { name: Some("a.exe".to_string()), url: None },
        Asset { name: Some("b.exe".to_string()), url: Some("u".to_string()) },
    ];
    assert!(find_package(Package::App, &files).is_none());
    assert!(find_package(Package::Tester, &files).is_none());
    assert_eq!(
        release_address("o/r"),
        "https://api.github.com/repos/o/r/releases/latest"
    );
    assert!(matches!(log_updater(LogLevel::Error, "e".to_string()), AppEvent::Log(LogLevel::Error, t) if t == "e"));
}

fn archive(entries: &[(&str, &[u8])]) -> Vec<u8> {
    let mut w = zip::ZipWriter::new(std::io::Cursor::new(Vec::new()));
    for (name, content) in entries {
        let options = zip::write::SimpleFileOptions::default()
            .compression_method(zip::CompressionMethod::Deflated);
        w.start_file(*name, options).unwrap();
        w.write_all(content).unwrap();
    }
    w.finish().unwrap().into_inner()
}

#[test]
fn the_program_is_unpacked() {
    let bytes = archive(&[("README.md", b"read"), ("bin/xray-knife.exe", b"program"), ("xray-knife.exe", b"other")]);
    assert!(matches!(unpack_program(&bytes), Unpacked::Program(p) if p == b"program"));
    assert!(matches!(unpack_program(&archive(&[("a", b"b")])), Unpacked::NotFound));
    assert!(matches!(unpack_program(b"no archive"), Unpacked::Unreadable));
    assert_eq!(TESTER_PROGRAM, "xray-knife.exe");
}

#[test]
fn an_entry_in_the_way_is_an_error() {
    let names = vec![Some("a".to_string()), None, Some("xray-knife.exe".to_string())];
    assert!(matches!(find_entry(&names), Spot::Unreadable));
    assert!(matches!(find_entry(&names[2..].to_vec()), Spot::At(0)));
    assert!(matches!(find_entry(&names[..1].to_vec()), Spot::Absent));
}

fn texts(s: &AppState) -> Vec<&str> {
    s.logs.iter().map(|l| l.text.as_str()).collect()
}

#[test]
fn the_window_opens_with_what_was_read() {
    let s = AppState::bootstrap(AppConfig::default(), None, None, false);
    assert_eq!(s.channels_text, DEFAULT_TARGETS);
    assert_eq!(s.subscriptions_text, "");
    assert_eq!(
        texts(&s),
        vec![
            "🖥️ System Boot: Smart Modular Engine Initialized (Phase 5).",
            "⚠️ xray-knife.exe not found! Please download it from the Tester tab.",
            "Testing proxy connection..."
        ]
    );
    assert_eq!(s.logs[1].level, LogLevel::Error);
    assert_eq!(s.logs[0].time.len(), 8);
    assert_eq!(s.logs[0].time.matches(':').count(), 2);
    let s = AppState::bootstrap(
        AppConfig::default(),
        Some("@a".to_string()),
        Some("s".to_string()),
        true,
    );
    assert_eq!((s.channels_text.as_str(), s.subscriptions_text.as_str()), ("@a", "s"));
    assert_eq!(s.logs.len(), 2);
}

#[test]
fn the_engine_starts_once_and_with_its_program() {
    let mut s = AppState::bootstrap(AppConfig::default(), None, None, true);
    assert!(!s.start(false));
    assert!(!s.running);
    assert!(s.logs.last().unwrap().text.starts_with("⛔ Cannot start"));
    assert!(s.start(true));
    assert!(s.running && s.logs.is_empty());
    s.save_all_settings(true);
    s.save_all_settings(false);
    assert_eq!(texts(&s), vec!["💾 All settings and targets saved successfully."]);
    assert!(!s.start(true));
    s.stop();
    assert_eq!(s.logs.last().unwrap().level, LogLevel::Warning);
    s.test_direct_connection();
    assert!(s.logs.last().unwrap().text.contains("soft98.ir"));
}

#[test]
fn events_change_the_board() {
    let mut s = AppState::bootstrap(AppConfig::default(), None, None, true);
    s.start(true);
    let mut counts: TextMap<usize> = TextMap::new();
    counts.insert("ss".to_string(), 3);
    s.poll_events(&vec![
        AppEvent::Log(LogLevel::Info, "one".to_string()),
        AppEvent::WorkerStopped,
        AppEvent::Stats { total: 3, by_protocol: counts },
        AppEvent::Log(LogLevel::Info, "two".to_string()),
    ]);
    assert_eq!(texts(&s), vec!["one", "💤 Engine safely terminated.", "two"]);
    assert!(!s.running);
    assert_eq!(s.total_configs, 3);
    assert_eq!(s.by_protocol.get("ss"), Some(&3));
    let first = s.log_text();
    assert!(first.starts_with('[') && first.ends_with("] two"));
    assert_eq!(first.matches('\n').count(), 2);
}

#[test]
fn long_logs_show_their_end() {
    let mut s = AppState::bootstrap(AppConfig::default(), None, None, true);
    assert_eq!(s.first_shown(), 0);
    for i in 0..500 {
        s.add_log(LogLevel::Debug, i.to_string());
    }
    assert_eq!(s.first_shown(), 2);
}

#[test]
fn results_stand_out() {
    assert!(stands_out("✅ PASSED=3"));
    assert!(stands_out("Phase 5 Post 1"));
    assert!(!stands_out("posted"));
    assert_eq!(ascii_lowercase("ABÉc"), "abÉc");
}

#[test]
fn connection_tests_are_reported() {
    let text = |e: AppEvent| match e {
        AppEvent::Log(level, t) => (level, t),
        _ => panic!("no message"),
    };
    assert_eq!(
        text(proxy_check_event(Check::Passed(12))),
        (LogLevel::Success, "📡 Network Check Passed in 12ms".to_string())
    );
    assert_eq!(
        text(proxy_check_event(Check::Failed)),
        (LogLevel::Error, "❌ Network Test Failed! Check your proxy settings.".to_string())
    );
    assert_eq!(
        text(proxy_check_event(Check::NoClient)),
        (LogLevel::Error, "❌ Failed to build network client!".to_string())
    );
    assert_eq!(
        text(direct_check_event(Check::Passed(7)).unwrap()),
        (LogLevel::Success, "🌐 Direct Connection Passed! soft98.ir loaded in 7ms".to_string())
    );
    assert_eq!(text(direct_check_event(Check::Failed).unwrap()).0, LogLevel::Error);
    assert!(direct_check_event(Check::NoClient).is_none());
}

#[test]
fn presets_choose_addresses() {
    let mut c = TesterConfig::for_platform(true);
    choose_ping_preset(&mut c, 3);
    assert_eq!(c.ping_test_url, "https://www.gstatic.com/generate_204");
    choose_ping_preset(&mut c, 0);
    assert_eq!((c.ping_url_preset, c.ping_test_url.as_str()), (0, "https://www.gstatic.com/generate_204"));
    choose_speed_preset(&mut c, 3);
    assert_eq!(c.speed_test_url, "https://speed.hetzner.de/10MB.bin");
    assert!(!c.speed_url_supports_bytes_query);
    choose_speed_preset(&mut c, 2);
    assert!(c.speed_url_supports_bytes_query);
    choose_speed_preset(&mut c, 0);
    assert_eq!(c.speed_test_url, "https://speed.cloudflare.com/__down");
}

#[test]
fn log_lines_keep_their_times() {
    let mut s = AppState::bootstrap(AppConfig::default(), None, None, true);
    s.log_at(LogLevel::Info, "early".to_string(), "01:02:03".to_string());
    s.add_log(LogLevel::Info, "late".to_string());
    s.stop();
    assert!(s.log_text().contains("\n[01:02:03] early\n["));
    for line in &s.logs {
        let time: Vec<char> = line.time.chars().collect();
        assert_eq!(time.len(), 8);
        for (i, c) in time.iter().enumerate() {
            assert!(if i == 2 || i == 5 { *c == ':' } else { c.is_ascii_digit() });
        }
    }
}

#[test]
fn sending_is_reported() {
    let text = |e: AppEvent| match e {
        AppEvent::Log(level, t) => (level, t),
        _ => panic!("no message"),
    };
    let mut c = publisher();
    c.post_config_count = 0;
    assert_eq!(
        text(sending_event(5, 3, &c)),
        (
            LogLevel::Info,
            "📤 PHASE 5 START | source=tested/new_only/mixed.txt | configs=5 | posts=3 | per_post=1"
                .to_string()
        )
    );
    assert_eq!(
        text(posted_event(1, 3, 2)),
        (
            LogLevel::Success,
            "✅ PHASE 5 POST 1/3 sent | configs_in_post=2 | remaining_posts=2".to_string()
        )
    );
    assert_eq!(
        text(sent_event(5)),
        (LogLevel::Success, "🏁 PHASE 5 COMPLETE | sent_configs=5".to_string())
    );
    assert_eq!(
        text(no_file_event("a/b")),
        (LogLevel::Warning, "⚠️ PHASE 5 skipped: a/b not found.".to_string())
    );
}
