use config_collector::collections::{TextMap, TextSet};
use config_collector::config::{
    AppConfig, ChannelMemory, ProtocolRule, ProxyType, SentHistory, Timestamp,
};
use config_collector::scraper::{
    absorb, apply_protocol_limits, breakdown, channel_event, client_proxy, count_links,
    cycle_event, decode_entities, failed_page_event, finish_round, finish_round_at, fold_alias,
    known_post_event, log_worker, parse_channels, sleep_event, started_event, take_new,
    take_new_at, thread_count, AppEvent, ChannelScan, ClientProxy, LogLevel, PageReply, Post,
};

fn set(items: &[&str]) -> TextSet {
    let list: Vec<String> = items.iter().map(|s| s.to_string()).collect();
    TextSet::from_list(&list)
}

const NOW: Timestamp = Timestamp { secs: 1_700_000_000, nanos: 0 };

#[test]
fn messages_are_events() {
    match log_worker(LogLevel::Info, "x".to_string()) {
        AppEvent::Log(level, text) => assert_eq!((level, text.as_str()), (LogLevel::Info, "x")),
        _ => panic!("no message"),
    }
}

#[test]
fn clients_go_through_the_proxy_that_is_set() {
    let mut c = AppConfig::default();
    assert!(matches!(client_proxy(&c), ClientProxy::Straight));
    c.proxy_type = ProxyType::System;
    assert!(matches!(client_proxy(&c), ClientProxy::System));
    let address = |c: &AppConfig| match client_proxy(c) {
        ClientProxy::Through(a) => a,
        _ => panic!("no address"),
    };
    c.proxy_type = ProxyType::Socks5;
    assert_eq!(address(&c), "socks5h://127.0.0.1:10808");
    c.remote_dns = false;
    c.proxy_host = " 10.0.0.1 ".to_string();
    assert_eq!(address(&c), "socks5://10.0.0.1:10808");
    c.proxy_type = ProxyType::Http;
    c.proxy_host = "  ".to_string();
    c.proxy_port = 1;
    assert_eq!(address(&c), "http://127.0.0.1:1");
}

#[test]
fn channels_are_read_line_by_line() {
    let raw = "# comment\n@one\n https://t.me/two/ \nhttps://t.me/s/three?before=5\n\nfour\n@\nt.me/";
    assert_eq!(parse_channels(raw), vec!["one", "two", "s/three", "four"]);
}

#[test]
fn listed_names_are_read_as_listed() {
    let names = vec!["a", "b c", "#d"];
    let raw: Vec<String> = names.iter().map(|n| format!("@{}", n)).collect();
    assert_eq!(parse_channels(&raw.join("\n")), names);
}

#[test]
fn threads_are_limited_by_channels() {
    assert_eq!(thread_count(3, 10), 3);
    assert_eq!(thread_count(30, 10), 10);
    assert_eq!(thread_count(0, 10), 1);
    assert_eq!(thread_count(5, 0), 1);
}

#[test]
fn limits_leave_the_first_links() {
    let mut m = TextMap::new();
    m.insert("ss".to_string(), set(&["c", "a", "b"]));
    m.insert("tg".to_string(), set(&["x", "y"]));
    m.insert("wg".to_string(), set(&["x", "y"]));
    let mut rules = TextMap::new();
    rules.insert("ss".to_string(), ProtocolRule { enabled: true, max_count: 2 });
    rules.insert("tg".to_string(), ProtocolRule { enabled: true, max_count: 0 });
    apply_protocol_limits(&mut m, &rules);
    assert_eq!(m.get("ss").unwrap().to_vec(), vec!["a", "b"]);
    assert_eq!(m.get("tg").unwrap().len(), 2);
    assert_eq!(m.get("wg").unwrap().len(), 2);
    apply_protocol_limits(&mut m, &rules);
    assert_eq!(m.get("ss").unwrap().to_vec(), vec!["a", "b"]);
}

fn page(posts: &[(u64, &str, &str)]) -> String {
    let mut out = String::from("<html>");
    for (id, date, text) in posts {
        out.push_str(&format!(
            "<div class=\"tgme_widget_message x\" data-post=\"Chan/{}\"><time datetime=\"{}\">{}</div>",
            id, date, text
        ));
    }
    out
}

#[test]
fn pages_are_read_post_by_post() {
    let memory = ChannelMemory::default();
    let mut s = ChannelScan::begin("Chan", &memory);
    assert_eq!(s.next_page(false, 3).as_deref(), Some("https://t.me/s/Chan"));
    let html = page(&[
        (7, "2023-11-14T22:13:20+00:00", "VLESS://u@h:1?a=b&amp;c=d#n). and ss://x!"),
        (9, "2020-01-01T00:00:00+00:00", "ss://too-old"),
        (8, "no date", "ss://kept"),
    ]);
    assert!(s.take_reply(PageReply::Page(html), NOW, 1));
    assert_eq!(s.highest, 9);
    assert_eq!(s.found, 3);
    assert_eq!(s.gathered.get("vless").unwrap().to_vec(), vec!["VLESS://u@h:1?a=b&c=d#n"]);
    assert_eq!(s.gathered.get("ss").unwrap().to_vec(), vec!["ss://kept", "ss://x"]);
    assert_eq!(s.before.as_deref(), Some("8"));
    assert_eq!(s.next_page(false, 3).as_deref(), Some("https://t.me/s/Chan?before=8"));
    assert!(s.next_page(true, 3).is_none());
    assert!(s.next_page(false, 1).is_none());
}

#[test]
fn entities_are_spelled_out() {
    assert_eq!(decode_entities("a&amp;b&lt;c&gt;d&quot;e&amp;lt;"), "a&b<c>d\"e<");
}

#[test]
fn a_page_read_again_brings_nothing() {
    let mut memory = ChannelMemory::default();
    let html = page(&[(7, "x", "ss://a"), (8, "x", "ss://b")]);
    let mut s = ChannelScan::begin("@Chan", &memory);
    s.take_posts(
        &vec![
            Post { id: 7, date: None, links: vec!["ss://a".to_string()] },
            Post { id: 8, date: None, links: vec!["ss://b".to_string()] },
        ],
        None,
        NOW,
        1,
    );
    assert_eq!(s.found, 2);
    s.remember(&mut memory);
    assert_eq!(memory.last_seen_ids.get("chan"), Some(&8));
    let mut again = ChannelScan::begin("chan", &memory);
    assert!(!again.take_reply(PageReply::Page(html), NOW, 1));
    assert_eq!(again.found, 0);
    assert!(again.hit_known);
    assert!(again.next_page(false, 9).is_none());
}

#[test]
fn known_posts_are_passed_over() {
    let mut memory = ChannelMemory::default();
    memory.last_seen_ids.insert("c".to_string(), 7);
    let mut s = ChannelScan::begin("C", &memory);
    let html = page(&[(7, "x", "ss://old"), (8, "x", "ss://new")]);
    assert!(!s.take_reply(PageReply::Page(html), NOW, 1));
    assert_eq!(s.gathered.get("ss").unwrap().to_vec(), vec!["ss://new"]);
    assert_eq!(s.highest, 8);
}

#[test]
fn bad_answers_end_the_reading() {
    let memory = ChannelMemory::default();
    let mut s = ChannelScan::begin("c", &memory);
    assert!(s.take_reply(PageReply::Unreadable, NOW, 1));
    assert_eq!(s.pages, 1);
    assert!(!s.take_reply(PageReply::Refused, NOW, 1));
    assert!(!s.take_reply(PageReply::Failed, NOW, 1));
    assert!(!s.take_reply(PageReply::Page("<html>".to_string()), NOW, 1));
    let mut none = ChannelMemory::default();
    s.remember(&mut none);
    assert_eq!(none.last_seen_ids.len(), 0);
    assert_eq!(breakdown(&s.gathered), "None");
}

#[test]
fn channels_are_reported() {
    let memory = ChannelMemory::default();
    let mut s = ChannelScan::begin("c", &memory);
    s.take_reply(PageReply::Page(page(&[(1, "x", "ss://a vless://b ss://c")])), NOW, 1);
    match channel_event(2, 5, &s) {
        AppEvent::Log(level, text) => {
            assert_eq!(level, LogLevel::Success);
            assert_eq!(text, "[2/5] ✔️ @c -> Extracted: 3 (ss: 2, vless: 1)");
        }
        _ => panic!("no message"),
    }
}

#[test]
fn stores_are_joined() {
    let mut a = TextMap::new();
    a.insert("ss".to_string(), set(&["1"]));
    let mut b = TextMap::new();
    b.insert("ss".to_string(), set(&["2"]));
    b.insert("tg".to_string(), set(&["3"]));
    absorb(&mut a, &b);
    assert_eq!(a.get("ss").unwrap().to_vec(), vec!["1", "2"]);
    assert_eq!(count_links(&a).get("tg"), Some(&1));
}

#[test]
fn the_short_name_goes_under_the_long_one() {
    let mut m = TextMap::new();
    m.insert("hy2".to_string(), set(&["hy2://1"]));
    m.insert("hysteria2".to_string(), set(&["hysteria2://2"]));
    fold_alias(&mut m);
    assert!(!m.contains_key("hy2"));
    assert_eq!(m.get("hysteria2").unwrap().to_vec(), vec!["hy2://1", "hysteria2://2"]);
    fold_alias(&mut m);
    assert_eq!(m.len(), 1);
}

#[test]
fn only_new_links_are_handed_out() {
    let mut h = SentHistory::default();
    h.sent_at.insert("b".to_string(), NOW);
    let mut m = TextMap::new();
    m.insert("p".to_string(), set(&["a", "b"]));
    m.insert("q".to_string(), set(&["a", "c"]));
    m.insert("r".to_string(), set(&["b"]));
    let (new, total) = take_new(&mut h, &m);
    assert_eq!(total, 2);
    assert_eq!(new.get("p").unwrap().to_vec(), vec!["a"]);
    assert_eq!(new.get("q").unwrap().to_vec(), vec!["c"]);
    assert!(!new.contains_key("r"));
    assert_eq!(h.sent_at.len(), 3);
    assert_eq!(h.sent_at.get("b"), Some(&NOW));
}

#[test]
fn a_repeated_round_is_empty() {
    let mut h = SentHistory::default();
    let mut c = AppConfig::default();
    c.protocol_rules.insert("ss".to_string(), ProtocolRule { enabled: true, max_count: 1 });
    let gathered = || {
        let mut m = TextMap::new();
        m.insert("ss".to_string(), set(&["ss://1", "ss://2"]));
        m.insert("hy2".to_string(), set(&["hy2://1"]));
        m
    };
    let r = finish_round(gathered(), &c, &mut h);
    assert_eq!(r.total_new, 2);
    assert_eq!(r.all.get("ss").unwrap().to_vec(), vec!["ss://1"]);
    assert_eq!(r.by_protocol.get("hysteria2"), Some(&1));
    assert!(r.write_new && r.write_all);
    let r = finish_round(gathered(), &c, &mut h);
    assert_eq!(r.total_new, 0);
    assert_eq!(r.new_only.len(), 0);
    assert!(!r.write_new && r.write_all);
    c.output_append_unique_enabled = false;
    assert!(!finish_round(gathered(), &c, &mut h).write_all);
}

#[test]
fn handed_out_links_are_remembered_while_the_history_looks_back() {
    let mut m = TextMap::new();
    m.insert("p".to_string(), set(&["a", "b"]));
    let mut h = SentHistory::default();
    h.sent_at.insert("a".to_string(), Timestamp { secs: NOW.secs - 86400, nanos: 0 });
    let (_, total) = take_new_at(&mut h, &m, NOW);
    assert_eq!(total, 1);
    assert_eq!(h.sent_at.get("a").unwrap().secs, NOW.secs - 86400);
    assert_eq!(h.sent_at.get("b"), Some(&NOW));
    let later = Timestamp { secs: NOW.secs + 86400, nanos: 0 };
    h.prune_at(later, 1);
    let (new, _) = take_new_at(&mut h, &m, later);
    assert_eq!(new.get("p").unwrap().to_vec(), vec!["a"]);
    h.prune_at(Timestamp { secs: later.secs, nanos: 1 }, 1);
    let (new, _) = take_new_at(&mut h, &m, later);
    assert_eq!(new.get("p").unwrap().to_vec(), vec!["b"]);
}

#[test]
fn a_round_repeated_within_the_days_is_empty() {
    let c = AppConfig::default();
    let mut h = SentHistory::default();
    let gathered = || {
        let mut m = TextMap::new();
        m.insert("hy2".to_string(), set(&["hy2://1"]));
        m
    };
    let r = finish_round_at(gathered(), &c, &mut h, NOW);
    assert_eq!(r.total_new, 1);
    assert_eq!(h.sent_at.get("hy2://1"), Some(&NOW));
    let soon = Timestamp { secs: NOW.secs + 900, nanos: 5 };
    h.prune_at(soon, 1);
    assert_eq!(finish_round_at(gathered(), &c, &mut h, soon).total_new, 0);
    h.prune_at(soon, 0);
    assert_eq!(finish_round_at(gathered(), &c, &mut h, soon).total_new, 1);
}

#[test]
fn links_handed_out_now_survive_forgetting() {
    let mut m = TextMap::new();
    m.insert("p".to_string(), set(&["a"]));
    let mut h = SentHistory::default();
    assert_eq!(take_new(&mut h, &m).1, 1);
    h.prune(1);
    assert_eq!(take_new(&mut h, &m).1, 0);
}

#[test]
fn rounds_are_reported() {
    let text = |e: AppEvent| match e {
        AppEvent::Log(level, t) => (level, t),
        _ => panic!("no message"),
    };
    assert_eq!(
        text(started_event(12, 3)),
        (LogLevel::Info, "🚀 Crawler Started | 12 Channels | Threads: 3".to_string())
    );
    assert_eq!(
        text(failed_page_event(2, "c")),
        (LogLevel::Warning, "⚠️ Failed page 2 of @c".to_string())
    );
    assert_eq!(
        text(known_post_event("c")),
        (LogLevel::Debug, "⏭️ @c -> Reached previously scanned posts.".to_string())
    );
    assert_eq!(
        text(cycle_event(10, 4)),
        (LogLevel::Success, "🎉 CYCLE COMPLETE! Total: 10 | NEW: 4".to_string())
    );
    assert_eq!(
        text(sleep_event(15)),
        (LogLevel::Info, "💤 Sleeping for 15 minutes...".to_string())
    );
}

#[test]
fn lists_of_channels_are_read_one_behind_the_other() {
    let (a, b) = ("@one\r\n\n# no\ntwo\n", " t.me/three\n");
    let mut both = parse_channels(a);
    both.extend(parse_channels(b));
    assert_eq!(both, vec!["one", "two", "three"]);
    assert_eq!(parse_channels(&format!("{}{}", a, b)), both);
}

#[test]
fn counts_add_up() {
    let mut m = TextMap::new();
    m.insert("p".to_string(), set(&["a", "b"]));
    m.insert("q".to_string(), set(&["a", "c", "d"]));
    let mut h = SentHistory::default();
    h.sent_at.insert("d".to_string(), NOW);
    let (new, total) = take_new_at(&mut h, &m, NOW);
    let counts = count_links(&new);
    assert_eq!(counts.get("p"), Some(&2));
    assert_eq!(counts.get("q"), Some(&1));
    assert_eq!(total, 3);
    assert_eq!(h.sent_at.len(), 4);
}
