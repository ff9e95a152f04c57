use base64::engine::general_purpose::STANDARD;
use base64::Engine;
use config_collector::config::TesterConfig;
use config_collector::csv::CsvRow;
use config_collector::naming::{
    best_speed, get_flag, rename_config, test_result, Speed, TestResult,
};

fn result(link: &str) -> TestResult {
    TestResult {
        link: link.to_string(),
        delay_ms: Some(120),
        download: Some(Speed { rank: 7, label: "2.0MB".to_string() }),
        country: Some("de".to_string()),
    }
}

fn silent() -> TesterConfig {
    let mut c = TesterConfig::for_platform(true);
    c.append_country_flag = false;
    c.append_ping_flag = false;
    c.append_speed_flag = false;
    c
}

#[test]
fn flags_are_regional_indicators() {
    assert_eq!(get_flag(" de "), "🇩🇪");
    assert_eq!(get_flag("D1"), "🌐");
    assert_eq!(get_flag("DEU"), "🌐");
    assert_eq!(get_flag("é"), "🌐");
    assert_eq!(get_flag(""), "🌐");
}

#[test]
fn plain_links_get_a_tag_before_their_name() {
    let c = TesterConfig::for_platform(true);
    let link = "vless://u@h:1?x=y#my%20name";
    let out = rename_config(link, &c, &result(link), Some(3));
    assert_eq!(
        out,
        "vless://u@h:1?x=y#%5B3%5D%20%F0%9F%87%A9%F0%9F%87%AA%20%7C%20de%20%7C%20120ms%20%7C%202.0MB%20%7C%20my%20name"
    );
}

#[test]
fn renaming_changes_nothing_before_the_number_sign() {
    let c = TesterConfig::for_platform(true);
    let link = "trojan://p@h:2?a=b#x#y";
    let out = rename_config(link, &c, &result(link), None);
    assert!(out.starts_with("trojan://p@h:2?a=b#"));
    assert_eq!(out.matches('#').count(), 1);
}

#[test]
fn unknown_findings_have_their_own_words() {
    let mut c = silent();
    c.append_country_flag = true;
    c.append_ping_flag = true;
    c.append_speed_flag = true;
    let r = TestResult {
        link: "ss://x".to_string(),
        delay_ms: None,
        download: Some(Speed { rank: 0, label: "none".to_string() }),
        country: None,
    };
    let out = rename_config("ss://x", &c, &r, None);
    assert_eq!(
        out,
        "ss://x#%F0%9F%87%BA%F0%9F%87%B3%20%7C%20UN%20%7C%20%3Fms%20%7C%20Low%20%7C%20Server"
    );
}

#[test]
fn with_nothing_to_say_the_link_stays() {
    let link = "ss://x#n";
    assert_eq!(rename_config(link, &silent(), &result(link), None), link);
    assert_eq!(rename_config(link, &silent(), &result(link), Some(1)), "ss://x#%5B1%5D%20%20%7C%20n");
}

#[test]
fn vmess_links_keep_their_object_but_for_the_name() {
    let mut c = silent();
    c.append_ping_flag = true;
    let object = "{\"add\":\"h\",\"port\":\"443\",\"ps\":\"old\"}";
    let link = format!("vmess://{}", STANDARD.encode(object));
    let out = rename_config(&link, &c, &result(&link), None);
    let body = STANDARD.decode(out.strip_prefix("vmess://").unwrap()).unwrap();
    let v: serde_json::Value = serde_json::from_slice(&body).unwrap();
    assert_eq!(v["ps"].as_str(), Some("120ms | old"));
    assert_eq!(v["add"].as_str(), Some("h"));
    assert_eq!(v["port"].as_str(), Some("443"));
    let unnamed = format!("vmess://{}", STANDARD.encode("{\"ps\":1}"));
    let out = rename_config(&unnamed, &c, &result(&unnamed), None);
    let body = STANDARD.decode(out.strip_prefix("vmess://").unwrap()).unwrap();
    assert_eq!(String::from_utf8(body).unwrap(), "{\"ps\":\"120ms | Server\"}");
}

#[test]
fn vmess_links_without_an_object_stay() {
    let c = TesterConfig::for_platform(true);
    let list = format!("vmess://{}", STANDARD.encode("[1]"));
    let noise = format!("vmess://{}", STANDARD.encode("noise"));
    for link in ["vmess://***", list.as_str(), noise.as_str()] {
        assert_eq!(rename_config(link, &c, &result(link), Some(1)), link);
    }
}

#[test]
fn the_best_rate_counts() {
    let speeds = vec![
        Speed { rank: 2, label: "a".to_string() },
        Speed { rank: 5, label: "b".to_string() },
        Speed { rank: 5, label: "c".to_string() },
        Speed { rank: 1, label: "d".to_string() },
    ];
    assert_eq!(best_speed(&speeds).unwrap().label, "c");
    assert!(best_speed(&[]).is_none());
    let row = CsvRow {
        link: "ss://x".to_string(),
        delay_ms: Some(3),
        speeds: Vec::new(),
        country: None,
    };
    let r = test_result(row, &speeds);
    assert_eq!(r.link, "ss://x");
    assert_eq!(r.delay_ms, Some(3));
    assert_eq!(r.download.unwrap().rank, 5);
}
