use config_collector::collections::{TextMap, TextSet};
use config_collector::config::TesterConfig;
use config_collector::knife::{
    alert_due, append_extra_args, count_found, found_event, ping_args, speed_args, speed_url,
    stderr_event, stdout_event, strip_ansi, temp_file_name, LineReader, Progress,
};
use config_collector::naming::{Speed, TestResult};
use config_collector::scraper::{AppEvent, LogLevel};
use config_collector::tester::{
    ending_event, ping_done_event, ping_start_event, select_ping, select_speed, skip_event,
    speed_done_event, speed_start_event, targets_event, tests_done_event, tests_start_event,
    Ending, Phase2Result, Phase2Run, Reply, Stage, Step,
};

fn set(items: &[&str]) -> TextSet {
    let list: Vec<String> = items.iter().map(|s| s.to_string()).collect();
    TextSet::from_list(&list)
}

fn res(link: &str, delay: Option<u128>, rank: Option<u64>) -> TestResult {
    TestResult {
        link: link.to_string(),
        delay_ms: delay,
        download: rank.map(|r| Speed { rank: r, label: format!("{}KB", r) }),
        country: None,
    }
}

fn store() -> TextMap<TextSet> {
    let mut m = TextMap::new();
    m.insert("ss".to_string(), set(&["ss://a", "ss://b"]));
    m.insert("vless".to_string(), set(&["vless://c"]));
    m.insert("tg".to_string(), set(&["tg://d"]));
    m
}

fn plain() -> TesterConfig {
    let mut c = TesterConfig::for_platform(false);
    c.append_country_flag = false;
    c.append_speed_flag = false;
    c
}

fn text_of(e: Option<AppEvent>) -> (LogLevel, String) {
    match e {
        Some(AppEvent::Log(level, text)) => (level, text),
        _ => panic!("no message"),
    }
}

#[test]
fn delay_tests_are_told_their_settings() {
    let mut c = TesterConfig::for_platform(true);
    c.concurrent_tests = 0;
    c.timeout_secs = 0;
    c.xray_verbose_logs = true;
    c.core_type = "xray".to_string();
    c.resolve_real_ip = false;
    c.allow_insecure = true;
    c.extra_xray_args = "  --a  b ".to_string();
    assert_eq!(
        ping_args(&c, "in.txt", "out.csv").join(" "),
        "http -f in.txt -t 1 -o out.csv -x csv -u https://cloudflare.com/cdn-cgi/trace -d 5000 \
         --retries 1 --timeout 1000 -v -z xray --rip=false --insecure --a b"
    );
}

#[test]
fn rate_tests_are_told_their_settings() {
    let c = TesterConfig::for_platform(true);
    assert_eq!(
        speed_args(&c, "i", "o").join(" "),
        "http -f i -t 10 -o o -x csv -p -u https://speed.cloudflare.com/__down?bytes=5120000 \
         -a 5000 -d 5000 --retries 1 --timeout 10000 -r"
    );
}

#[test]
fn rate_addresses_carry_the_number_of_bytes() {
    let mut c = TesterConfig::for_platform(true);
    c.speed_test_amount_kb = 2;
    c.speed_test_url = "http://x/{bytes}/{bytes}".to_string();
    assert_eq!(speed_url(&c), "http://x/2048/2048");
    c.speed_test_url = "http://x/?a=b".to_string();
    assert_eq!(speed_url(&c), "http://x/?a=b&bytes=2048");
    c.speed_url_supports_bytes_query = false;
    assert_eq!(speed_url(&c), "http://x/?a=b");
    c.speed_url_supports_bytes_query = true;
    c.speed_test_amount_kb = 0;
    assert_eq!(speed_url(&c), "http://x/?a=b");
}

#[test]
fn extra_arguments_are_words() {
    let mut args = vec!["x".to_string()];
    append_extra_args(&mut args, "\t-q 1\n");
    assert_eq!(args, vec!["x", "-q", "1"]);
    assert_eq!(temp_file_name(17, "a.txt"), "17_a.txt");
}

#[test]
fn escape_sequences_are_not_shown() {
    assert_eq!(strip_ansi(" \u{1b}[1;31mred\u{1b}[0m \u{feff}text\r"), "red text");
    assert_eq!(strip_ansi("\u{1b}[12"), "");
}

#[test]
fn plain_text_is_shown_as_it_is() {
    assert_eq!(strip_ansi("  plain [1m] text "), "plain [1m] text");
}

#[test]
fn lines_are_put_together_from_bytes() {
    let mut r = LineReader::new();
    let mut lines = Vec::new();
    for b in b"ab\r\n\xffc\n\x1b[m\n d\xc3\xa9 \n" {
        if let Some(l) = r.feed(*b) {
            lines.push(l);
        }
    }
    assert_eq!(lines, vec!["ab", "\u{fffd}c", "dé"]);
}

#[test]
fn progress_is_reported_in_steps() {
    let mut p = Progress::new();
    let line = |n: u32, d: u32| format!("Testing configs {}% ({}/1000)", n, d);
    assert!(stdout_event(&mut p, line(3, 2), 5).is_none());
    assert!(stdout_event(&mut p, line(4, 2), 5).is_some());
    assert!(stdout_event(&mut p, line(8, 3), 5).is_none());
    assert!(stdout_event(&mut p, line(9, 3), 5).is_some());
    assert_eq!(p.last_percent, 9);
    assert_eq!(p.last_done, 0);
    assert!(stdout_event(&mut p, line(9, 50), 5).is_some());
    assert_eq!(p.last_done, 50);
    assert!(stdout_event(&mut p, line(9, 1000), 5).is_some());
    assert!(stdout_event(&mut p, "Testing configs % later".to_string(), 5).is_none());
    let (level, text) = text_of(stdout_event(&mut p, "hello".to_string(), 5));
    assert_eq!((level, text.as_str()), (LogLevel::Debug, "hello"));
    let full = Some(vec!["100%".to_string(), "100".to_string()]);
    let mut q = Progress { last_percent: 100, last_done: 7 };
    assert!(q.note(&full, &None, 9));
    assert!(!q.note(&None, &None, 9));
    assert_eq!(q.last_done, 7);
}

#[test]
fn errors_are_warnings_but_for_progress() {
    let (level, text) = text_of(stderr_event("boom".to_string()));
    assert_eq!((level, text.as_str()), (LogLevel::Warning, "boom"));
    assert!(stderr_event("Testing configs 1%".to_string()).is_none());
    assert!(stderr_event(String::new()).is_none());
}

#[test]
fn new_results_are_announced() {
    assert_eq!(count_found("h\na\nb\n"), 2);
    assert_eq!(count_found(""), 0);
    let (level, text) = text_of(found_event(5, 2));
    assert_eq!(level, LogLevel::Success);
    assert_eq!(text, "🎉 Found 3 new working config(s)! (Total: 5)");
    assert!(found_event(2, 2).is_none());
    assert!(alert_due(true, false, 3));
    assert!(!alert_due(true, true, 2));
    assert!(!alert_due(false, false, 9));
}

#[test]
fn delays_are_sorted_and_kept() {
    let rs = vec![
        res("a", Some(30), None),
        res("b", None, None),
        res("c", Some(10), None),
        res("d", Some(30), None),
    ];
    let links: Vec<String> = select_ping(&rs).into_iter().map(|r| r.link).collect();
    assert_eq!(links, vec!["c", "a", "d"]);
}

#[test]
fn rates_are_sorted_and_kept() {
    let rs = vec![
        res("a", None, Some(3)),
        res("b", None, None),
        res("c", None, Some(9)),
        res("d", None, Some(0)),
        res("e", None, Some(9)),
    ];
    let links: Vec<String> = select_speed(&rs).into_iter().map(|r| r.link).collect();
    assert_eq!(links, vec!["c", "e", "a"]);
}

#[test]
fn nothing_is_tested_without_need() {
    let mut c = plain();
    c.enabled = false;
    assert_eq!(Phase2Run::begin(&store(), &c).1, Step::Quit(Ending::Disabled));
    c.enabled = true;
    c.ping_test_enabled = false;
    assert_eq!(Phase2Run::begin(&store(), &c).1, Step::Quit(Ending::BothTestsOff));
    let mut only_tg = TextMap::new();
    only_tg.insert("tg".to_string(), set(&["tg://d"]));
    let (run, step) = Phase2Run::begin(&only_tg, &c);
    assert_eq!(step, Step::Quit(Ending::NothingToTest));
    assert_eq!(run.stage, Stage::Over);
    let r = Phase2Result::default();
    assert!(r.ping_passed_mixed.is_empty() && r.speed_passed_mixed.is_empty());
}

#[test]
fn delay_test_alone_renames_what_passed() {
    let c = plain();
    let mut configs = store();
    let (mut run, step) = Phase2Run::begin(&configs, &c);
    assert_eq!(step, Step::WriteInput);
    assert_eq!(run.input_text(), "ss://a\nss://b\nvless://c");
    assert_eq!(run.advance(&c, Reply::Written(true)), Step::CheckStop);
    assert_eq!(run.advance(&c, Reply::Stopped(false)), Step::RunPing);
    let rs = vec![res("ss://b", Some(9), None), res("ss://a", None, None), res("x", Some(1), None)];
    assert_eq!(run.advance(&c, Reply::Ran(Some(rs))), Step::CheckStop);
    assert_eq!(run.advance(&c, Reply::Stopped(false)), Step::Merge);
    assert_eq!(run.merge(&mut configs, &c), 1);
    assert_eq!(configs.get("ss").unwrap().to_vec(), vec!["ss://b#9ms%20%7C%20Server"]);
    assert!(configs.get("vless").unwrap().is_empty());
    assert_eq!(run.result.ping_passed_mixed.len(), 2);
}

#[test]
fn untested_protocols_keep_their_links() {
    let c = plain();
    let mut configs = store();
    let (run, _) = Phase2Run::begin(&configs, &c);
    run.merge(&mut configs, &c);
    assert_eq!(configs.get("tg").unwrap().to_vec(), vec!["tg://d"]);
    assert!(configs.get("ss").unwrap().is_empty());
}

#[test]
fn chained_tests_hand_on_only_rated_links() {
    let mut c = plain();
    c.speed_test_enabled = true;
    c.speed_test_from_ping_passed_only = true;
    c.speed_test_top_count = 1;
    let mut configs = store();
    let (mut run, _) = Phase2Run::begin(&configs, &c);
    run.advance(&c, Reply::Written(true));
    run.advance(&c, Reply::Stopped(false));
    let rs = vec![res("ss://a", Some(9), None), res("vless://c", Some(3), None)];
    run.advance(&c, Reply::Ran(Some(rs)));
    assert_eq!(run.advance(&c, Reply::Stopped(false)), Step::WriteSpeedInput);
    assert_eq!(run.speed_text(&c), "vless://c");
    assert_eq!(run.advance(&c, Reply::Written(true)), Step::RunSpeed);
    let rs = vec![res("vless://c", Some(4), Some(8))];
    assert_eq!(run.advance(&c, Reply::Ran(Some(rs))), Step::Merge);
    assert_eq!(run.merge(&mut configs, &c), 1);
    assert!(configs.get("ss").unwrap().is_empty());
    assert_eq!(
        configs.get("vless").unwrap().to_vec(),
        vec!["vless://c#%5B1%5D%204ms%20%7C%20Server"]
    );
    assert_eq!(run.result.speed_passed_mixed.len(), 1);
}

#[test]
fn chained_tests_skip_rates_when_no_delay_passed() {
    let mut c = plain();
    c.speed_test_enabled = true;
    c.speed_test_from_ping_passed_only = true;
    let (mut run, _) = Phase2Run::begin(&store(), &c);
    run.advance(&c, Reply::Written(true));
    run.advance(&c, Reply::Stopped(false));
    assert_eq!(run.advance(&c, Reply::Ran(None)), Step::CheckStop);
    assert_eq!(run.advance(&c, Reply::Stopped(false)), Step::Merge);
}

#[test]
fn both_tests_hand_on_both() {
    let mut c = plain();
    c.speed_test_enabled = true;
    let mut configs = store();
    let (mut run, _) = Phase2Run::begin(&configs, &c);
    run.advance(&c, Reply::Written(true));
    run.advance(&c, Reply::Stopped(false));
    run.advance(&c, Reply::Ran(Some(vec![res("ss://a", Some(9), None)])));
    run.advance(&c, Reply::Stopped(false));
    assert_eq!(run.targets(&c).len(), 3);
    run.advance(&c, Reply::Written(true));
    run.advance(&c, Reply::Ran(Some(vec![res("ss://b", None, Some(2))])));
    assert_eq!(run.merge(&mut configs, &c), 2);
    assert_eq!(
        configs.get("ss").unwrap().to_vec(),
        vec!["ss://a#9ms%20%7C%20Server", "ss://b#%5B1%5D%20%3Fms%20%7C%20Server"]
    );
}

#[test]
fn a_run_ends_early_on_trouble() {
    let mut c = plain();
    c.speed_test_enabled = true;
    let begin = || Phase2Run::begin(&store(), &c).0;
    let mut run = begin();
    assert_eq!(run.advance(&c, Reply::Written(false)), Step::Quit(Ending::InputNotWritten));
    let mut run = begin();
    run.advance(&c, Reply::Written(true));
    assert_eq!(run.advance(&c, Reply::Stopped(true)), Step::Quit(Ending::Stopped));
    let mut run = begin();
    run.advance(&c, Reply::Written(true));
    run.advance(&c, Reply::Stopped(false));
    run.advance(&c, Reply::Ran(None));
    assert_eq!(run.advance(&c, Reply::Stopped(true)), Step::Quit(Ending::Interrupted));
    let mut run = begin();
    run.advance(&c, Reply::Written(true));
    run.advance(&c, Reply::Stopped(false));
    run.advance(&c, Reply::Ran(None));
    run.advance(&c, Reply::Stopped(false));
    assert_eq!(run.advance(&c, Reply::Written(false)), Step::Quit(Ending::SpeedInputNotWritten));
}

#[test]
fn rate_test_alone_starts_after_two_looks_at_the_stop() {
    let mut c = plain();
    c.ping_test_enabled = false;
    c.speed_test_enabled = true;
    let (mut run, _) = Phase2Run::begin(&store(), &c);
    run.advance(&c, Reply::Written(true));
    assert_eq!(run.advance(&c, Reply::Stopped(false)), Step::CheckStop);
    assert_eq!(run.stage, Stage::BeforeSpeed);
    assert_eq!(run.advance(&c, Reply::Stopped(false)), Step::WriteSpeedInput);
    assert_eq!(run.advance(&c, Reply::Written(true)), Step::RunSpeed);
    assert_eq!(run.advance(&c, Reply::Ran(None)), Step::Merge);
}

#[test]
fn tests_are_reported() {
    let mut c = TesterConfig::for_platform(true);
    let text = |e: AppEvent| text_of(Some(e));
    assert_eq!(
        text(tests_start_event(7, &c)).1,
        "🔬 PHASE 2 START | total=7 | ping=true | speed=false | chain_ping_to_speed=false"
    );
    assert_eq!(
        text(ping_start_event(&c)).1,
        "📍 Phase2/PING start -> https://cloudflare.com/cdn-cgi/trace"
    );
    assert_eq!(
        text(ping_done_event(3, 7, 1500)).1,
        "✅ Phase2/PING done | passed=3 | removed=4 | elapsed=1500ms"
    );
    assert_eq!(
        text(speed_done_event(4, 3, 9)).1,
        "✅ Phase2/SPEED done | passed=4 | removed=0 | elapsed=9ms"
    );
    assert_eq!(
        text(targets_event(3, &c)).1,
        "📦 Phase2/SPEED targets=3 | source=all-phase1 | remaining_after_speed=depends_on_results"
    );
    assert_eq!(
        text(speed_start_event(&c)).1,
        "🚀 Phase2/SPEED start -> https://speed.cloudflare.com/__down?bytes=5120000"
    );
    assert_eq!(
        text(tests_done_event(2, 7)),
        (LogLevel::Success, "🏁 PHASE 2 COMPLETE | final_passed_unique=2/7".to_string())
    );
    let (run, _) = Phase2Run::begin(&TextMap::new(), &c);
    assert!(skip_event(&run, &c).is_none());
    c.speed_test_enabled = true;
    c.speed_test_from_ping_passed_only = true;
    assert_eq!(
        text_of(skip_event(&run, &c)),
        (
            LogLevel::Warning,
            "⚠️ Chain Mode is ON but Ping found 0 configs. Skipping Speed test.".to_string()
        )
    );
    assert!(text(targets_event(3, &c)).1.contains("source=ping-passed"));
}

#[test]
fn early_endings_are_reported() {
    assert!(ending_event(Ending::Disabled).is_none());
    assert!(ending_event(Ending::NothingToTest).is_none());
    assert!(ending_event(Ending::Stopped).is_none());
    assert_eq!(
        text_of(ending_event(Ending::BothTestsOff)),
        (LogLevel::Warning, "⚠️ Tester enabled but Ping/Speed are disabled.".to_string())
    );
    assert_eq!(
        text_of(ending_event(Ending::InputNotWritten)),
        (LogLevel::Error, "❌ Failed to create test input file.".to_string())
    );
    assert_eq!(
        text_of(ending_event(Ending::Interrupted)),
        (LogLevel::Warning, "🛑 Tester interrupted.".to_string())
    );
    assert_eq!(
        text_of(ending_event(Ending::SpeedInputNotWritten)),
        (LogLevel::Error, "❌ Failed to create speed candidates file.".to_string())
    );
}

#[test]
fn extra_arguments_follow_each_other() {
    let (mut apart, mut together) = (Vec::new(), Vec::new());
    append_extra_args(&mut apart, " -a  1");
    append_extra_args(&mut apart, "-b ");
    append_extra_args(&mut together, " -a  1\t-b ");
    assert_eq!(apart, vec!["-a", "1", "-b"]);
    assert_eq!(apart, together);
}
