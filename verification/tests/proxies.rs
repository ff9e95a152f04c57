use base64::engine::general_purpose::{STANDARD, URL_SAFE_NO_PAD};
use base64::Engine;
use config_collector::collections::TextSet;
use config_collector::config::{ClashConverterConfig, ClashProtocolRule};
use config_collector::converter::{
    apply_phase4_rules, build_full_config, build_provider, convert_set, convert_tested_to_clash,
    converted_event, converting_event,
};
use config_collector::links::{
    normalize_base64, parse_hysteria2, parse_proxy, parse_ss, parse_trojan, parse_vless,
    parse_vmess, valid, vless_of, vmess_of, Protocol, Proxy, VmessFields,
};
use config_collector::outside::UrlParts;
use config_collector::scraper::{AppEvent, LogLevel};
use config_collector::template::{GROUPS_FOOT, HEAD};

fn set(items: &[&str]) -> TextSet {
    let list: Vec<String> = items.iter().map(|s| s.to_string()).collect();
    TextSet::from_list(&list)
}

fn named(link: &str) -> Proxy {
    parse_proxy(link).unwrap()
}

#[test]
fn base64_is_read_in_either_alphabet_and_without_padding() {
    let text = "method:pässwörd??>>";
    assert_eq!(normalize_base64(&STANDARD.encode(text)).as_deref(), Some(text));
    assert_eq!(normalize_base64(&URL_SAFE_NO_PAD.encode(text)).as_deref(), Some(text));
    assert_eq!(normalize_base64(" YW Jj ").as_deref(), Some("abc"));
    assert_eq!(normalize_base64("YWJjZ"), None);
    assert_eq!(normalize_base64("  "), None);
    assert_eq!(normalize_base64("/w=="), None);
    assert_eq!(normalize_base64("****"), None);
}

#[test]
fn vless_links_are_addresses() {
    let p = parse_vless(
        "vless://id@host.org:8443?security=reality&type=ws&sni=s.org&fp=chrome&pbk=key&sid=1f#my%20name",
    )
    .unwrap();
    assert_eq!(p.protocol, Protocol::Vless);
    assert_eq!(p.name, "my name");
    assert_eq!((p.server.as_str(), p.port), ("host.org", 8443));
    assert_eq!(p.uuid.as_deref(), Some("id"));
    assert_eq!(p.tls, Some(true));
    assert_eq!(p.network.as_deref(), Some("ws"));
    assert_eq!(p.servername.as_deref(), Some("s.org"));
    assert_eq!(p.client_fingerprint.as_deref(), Some("chrome"));
    let r = p.reality.unwrap();
    assert_eq!((r.public_key.as_str(), r.short_id.as_deref()), ("key", Some("1f")));
    let p = parse_vless("vless://id@host.org").unwrap();
    assert_eq!((p.name.as_str(), p.port), ("host.org", 443));
    assert_eq!(p.tls, Some(false));
    assert_eq!(p.network.as_deref(), Some("tcp"));
    assert!(p.reality.is_none() && p.servername.is_none());
    assert!(parse_vless("vless://").is_none());
}

#[test]
fn addresses_are_taken_apart_before() {
    let u = UrlParts {
        host: Some("h".to_string()),
        port: None,
        user: "u".to_string(),
        fragment: None,
        query: vec![
            ("security".to_string(), "tls".to_string()),
            ("security".to_string(), "reality".to_string()),
        ],
    };
    let p = vless_of(&u).unwrap();
    assert_eq!(p.tls, Some(true));
    assert!(p.reality.is_none());
    let none = UrlParts { host: None, ..u };
    assert!(vless_of(&none).is_none());
}

#[test]
fn trojan_links_are_addresses() {
    let p = parse_trojan("trojan://p%40ss@h.org:444?type=grpc&sni=x.org#t").unwrap();
    assert_eq!(p.protocol, Protocol::Trojan);
    assert_eq!(p.password.as_deref(), Some("p@ss"));
    assert_eq!(p.tls, Some(true));
    assert_eq!(p.network.as_deref(), Some("grpc"));
    assert_eq!(p.servername.as_deref(), Some("x.org"));
    assert!(p.uuid.is_none());
}

#[test]
fn hysteria_links_have_two_schemes() {
    for link in ["hy2://pw@h.org:500?sni=x#n", "hysteria2://pw@h.org:500?sni=x#n"] {
        let p = parse_hysteria2(link).unwrap();
        assert_eq!(p.protocol, Protocol::Hysteria2);
        assert_eq!((p.server.as_str(), p.port), ("h.org", 500));
        assert_eq!(p.password.as_deref(), Some("pw"));
        assert_eq!(p.sni.as_deref(), Some("x"));
        assert!(p.tls.is_none());
    }
}

#[test]
fn vmess_links_are_objects() {
    let body = STANDARD.encode(
        "{\"ps\":\"a%20b\",\"add\":\"h\",\"port\":\"8080\",\"id\":\"u\",\"aid\":\"2\",\"scy\":\"none\"}",
    );
    let p = parse_vmess(&format!("vmess://{}", body)).unwrap();
    assert_eq!(p.name, "a b");
    assert_eq!((p.server.as_str(), p.port), ("h", 8080));
    assert_eq!(p.uuid.as_deref(), Some("u"));
    assert_eq!(p.alter_id, Some(2));
    assert_eq!(p.cipher.as_deref(), Some("none"));
    let bare = parse_vmess(&format!("vmess://{}", STANDARD.encode("{\"port\":8080}"))).unwrap();
    assert_eq!((bare.name.as_str(), bare.server.as_str(), bare.port), ("vmess", "", 443));
    assert_eq!(bare.alter_id, Some(0));
    assert_eq!(bare.cipher.as_deref(), Some("auto"));
    assert!(parse_vmess("vmess://bm9pc2U=").is_none());
    let fields = VmessFields {
        ps: None,
        add: Some("x".to_string()),
        port: Some("70000".to_string()),
        id: None,
        aid: Some("-".to_string()),
        scy: None,
    };
    let p = vmess_of(fields);
    assert_eq!((p.name.as_str(), p.port, p.alter_id), ("x", 443, Some(0)));
}

#[test]
fn shadowsocks_links_come_in_three_forms() {
    let auth = STANDARD.encode("aes:pw:x");
    let a = parse_ss(&format!("ss://{}@h.org:80#t%20g", auth)).unwrap();
    assert_eq!((a.name.as_str(), a.server.as_str(), a.port), ("t g", "h.org", 80));
    assert_eq!(a.cipher.as_deref(), Some("aes"));
    assert_eq!(a.password.as_deref(), Some("pw:x"));
    let b = parse_ss("ss://aes:pw@h.org:80").unwrap();
    assert_eq!((b.name.as_str(), b.cipher.as_deref()), ("h.org", Some("aes")));
    let c = parse_ss(&format!("ss://{}", STANDARD.encode("aes:pw@h.org:81"))).unwrap();
    assert_eq!((c.port, c.password.as_deref()), (81, Some("pw")));
    assert!(parse_ss("ss://aes:pw@h.org:99999").is_none());
    assert!(parse_ss("ss://aes:pw@h.org").is_none());
    assert!(parse_ss("ss://!!!").is_none());
}

#[test]
fn schemes_choose_the_reader() {
    assert_eq!(named("VLESS://id@h.org:1").protocol, Protocol::Vless);
    assert_eq!(named("ss://a:b@h:1").protocol, Protocol::Ss);
    assert_eq!(named("hy2://p@h:1").protocol, Protocol::Hysteria2);
    assert_eq!(Protocol::Hysteria2.name(), "hysteria2");
    assert!(parse_proxy("tg://proxy").is_none());
}

#[test]
fn valid_proxies_can_be_reached() {
    assert!(valid(&named("vless://id@h:1")));
    assert!(!valid(&named("vless://h:1")));
    assert!(!valid(&named("ss://a:b@h:0")));
    assert!(!valid(&named("ss://a:b@:1")));
    assert!(!valid(&named("trojan://h:1")));
    assert!(valid(&named("ss://:@h:1")));
}

#[test]
fn rules_select_and_order() {
    let mut cfg = ClashConverterConfig::default();
    cfg.protocol_rules.insert(
        "ss".to_string(),
        ClashProtocolRule { enabled: true, max_count: 1, priority: 9 },
    );
    cfg.protocol_rules.insert(
        "trojan".to_string(),
        ClashProtocolRule { enabled: false, max_count: 0, priority: 1 },
    );
    cfg.protocol_rules.remove("hysteria2");
    let all = || {
        vec![
            named("ss://a:b@one:1"),
            named("ss://a:b@two:1"),
            named("trojan://p@three:1"),
            named("hy2://p@four:1"),
            named("vless://u@five:1"),
            named("vless://u@six:1"),
        ]
    };
    let names = |v: Vec<Proxy>| -> Vec<String> { v.into_iter().map(|p| p.server).collect() };
    assert_eq!(names(apply_phase4_rules(all(), &cfg)), vec!["five", "six", "one"]);
    cfg.total_limit = 2;
    assert_eq!(names(apply_phase4_rules(all(), &cfg)), vec!["five", "six"]);
}

#[test]
fn names_are_told_apart() {
    let cfg = ClashConverterConfig::default();
    let mut list = vec![
        named("ss://a:b@h:1#x"),
        named("ss://a:b@h:2#x"),
        named("ss://a:b@h:3#x%20%7C%20%7C"),
        named("ss://a:b@h:4#y"),
        named("ss://a:b@h:5#z"),
    ];
    list[4].name = "  ".to_string();
    let out = apply_phase4_rules(list, &cfg);
    let names: Vec<&str> = out.iter().map(|p| p.name.as_str()).collect();
    assert_eq!(names, vec!["x", "x-1", "x-2", "y", "SS"]);
    let ports: Vec<u16> = out.iter().map(|p| p.port).collect();
    assert_eq!(ports, vec![1, 2, 3, 4, 5]);
}

#[test]
fn a_plain_name_can_meet_a_numbered_one() {
    let cfg = ClashConverterConfig::default();
    let list = vec![
        named("ss://a:b@h:1#x"),
        named("ss://a:b@h:2#x"),
        named("ss://a:b@h:3#x-1"),
    ];
    let names: Vec<String> = apply_phase4_rules(list, &cfg).into_iter().map(|p| p.name).collect();
    assert_eq!(names, vec!["x", "x-1", "x-1"]);
}

#[test]
fn providers_list_proxies_as_objects() {
    assert_eq!(build_provider(&Vec::new()), "proxies: []\n");
    let p = vec![named("ss://a:b@h:1#x"), named("vless://u@h:2?security=reality&sid=5#y")];
    assert_eq!(
        build_provider(&p),
        "proxies:\n  - {\"cipher\":\"a\",\"name\":\"x\",\"password\":\"b\",\"port\":1,\"server\":\"h\",\"type\":\"ss\",\"udp\":true}\n  - {\"name\":\"y\",\"network\":\"tcp\",\"port\":2,\"reality-opts\":{\"public-key\":\"\",\"short-id\":\"5\"},\"server\":\"h\",\"tls\":true,\"type\":\"vless\",\"udp\":true,\"uuid\":\"u\"}\n"
    );
}

#[test]
fn full_configurations_list_names_in_every_group() {
    assert_eq!(build_full_config(&Vec::new()), "proxies: []\n");
    let p = vec![named("ss://a:b@h:1#x"), named("ss://a:b@h:2#y")];
    let text = build_full_config(&p);
    assert!(text.starts_with(HEAD));
    assert!(text.ends_with(GROUPS_FOOT));
    assert_eq!(text.matches("      - \"x\"\n      - \"y\"\n").count(), 3);
    assert!(text.contains("\nproxies:\n  - {\"cipher\":\"a\",\"name\":\"x\""));
    assert!(HEAD.starts_with("global-client-fingerprint: \"chrome\"\n"));
}

#[test]
fn equal_proxies_are_converted_once() {
    let mut cfg = ClashConverterConfig::default();
    cfg.output_full_config = false;
    let input = set(&["ss://a:b@h:1#first", "ss://a:b@h:1#second", "ss://c:b@:1", "noise"]);
    let f = convert_set("mixed", &input, &cfg);
    assert_eq!(f.name, "mixed_provider.yaml");
    assert_eq!(f.text.matches("\"server\"").count(), 1);
    assert!(f.text.contains("\"name\":\"first\""));
}

#[test]
fn three_lists_are_converted() {
    let mut cfg = ClashConverterConfig::default();
    let s = set(&["ss://a:b@h:1#n"]);
    let none = TextSet::new();
    let files = convert_tested_to_clash(&s, &none, &s, &cfg);
    let names: Vec<&str> = files.iter().map(|f| f.name.as_str()).collect();
    assert_eq!(names, vec!["ping_config.yaml", "speed_config.yaml", "mixed_config.yaml"]);
    assert_eq!(files[0].text, "proxies: []\n");
    assert_eq!(files[1].text, files[2].text);
    cfg.enabled = false;
    assert_eq!(convert_tested_to_clash(&s, &none, &s, &cfg).len(), 0);
}

#[test]
fn conversions_are_reported() {
    match converting_event(1, 2, 3) {
        AppEvent::Log(level, t) => {
            assert_eq!(level, LogLevel::Info);
            assert_eq!(t, "🧩 PHASE 3 START | ping=1 speed=2 mixed=3");
        }
        _ => panic!("no message"),
    }
    match converted_event("ping", "out/x.yaml") {
        AppEvent::Log(level, t) => {
            assert_eq!(level, LogLevel::Success);
            assert_eq!(t, "✅ PHASE 3 ping -> out/x.yaml");
        }
        _ => panic!("no message"),
    }
}

#[test]
fn a_total_limit_leaves_the_first() {
    let links = set(&["ss://YTpi@h1:1", "trojan://k@h2:2", "ss://YTpi@h3:3"]);
    let mut cfg = ClashConverterConfig::default();
    let all = |cfg: &ClashConverterConfig| {
        let proxies: Vec<Proxy> = links.to_vec().iter().map(|l| named(l)).collect();
        let kept = apply_phase4_rules(proxies, cfg);
        kept.iter().map(|p| p.server.clone()).collect::<Vec<String>>()
    };
    let whole = all(&cfg);
    assert_eq!(whole, vec!["h1", "h3", "h2"]);
    cfg.total_limit = 2;
    assert_eq!(all(&cfg), whole[..2].to_vec());
    cfg.total_limit = 9;
    assert_eq!(all(&cfg), whole);
}

#[test]
fn both_shadowsocks_forms_say_the_same() {
    let part = format!("ss://{}@h:8", STANDARD.encode("aes:pw"));
    let whole = format!("ss://{}", STANDARD.encode("aes:pw@h:8"));
    let (a, b) = (parse_ss(&part).unwrap(), parse_ss(&whole).unwrap());
    assert_eq!((a.cipher.as_deref(), a.password.as_deref()), (Some("aes"), Some("pw")));
    assert_eq!((a.server.as_str(), a.port), ("h", 8));
    assert_eq!((&a.cipher, &a.password, &a.server, a.port), (&b.cipher, &b.password, &b.server, b.port));
}
