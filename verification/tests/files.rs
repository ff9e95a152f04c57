use base64::engine::general_purpose::STANDARD;
use base64::Engine;
use config_collector::collections::{TextMap, TextSet};
use config_collector::storage::{
    is_behind_cloudflare, is_cloudflare_domain, is_windows_compatible, mentions_cloudflare, mixes,
    read_existing_set, save_content, save_content_append, secret_fits_windows,
    write_files_standard, write_files_standard_append, write_mixed_only, write_mixed_only_append,
    NON_MIXED_PROTOCOLS,
};

fn set(items: &[&str]) -> TextSet {
    let list: Vec<String> = items.iter().map(|s| s.to_string()).collect();
    TextSet::from_list(&list)
}

const HEX: &str = "0123456789abcdefABCDEF0123456789";

#[test]
fn secrets_for_the_desktop_are_hexadecimal() {
    assert!(secret_fits_windows(HEX));
    assert!(secret_fits_windows(&format!("DD{}", HEX)));
    assert!(!secret_fits_windows(&format!("ee{}", &HEX[2..])));
    assert!(!secret_fits_windows(&HEX[1..]));
    assert!(!secret_fits_windows(&HEX.replace('0', "g")));
    assert!(!secret_fits_windows(&HEX.replace('0', "%")));
    assert!(!secret_fits_windows(&HEX.replace('0', "_")));
    assert!(!secret_fits_windows(&HEX.replace('0', "-")));
}

#[test]
fn telegram_links_are_judged_by_their_secret() {
    assert!(is_windows_compatible(&format!("tg://proxy?server=x&secret={}", HEX)));
    assert!(!is_windows_compatible("tg://proxy?server=x&secret=ee12"));
    assert!(!is_windows_compatible("tg://proxy?server=x"));
}

#[test]
fn cloudflare_hosts_are_known_by_their_ends() {
    assert!(is_cloudflare_domain("A.Workers.DEV"));
    assert!(is_cloudflare_domain("chatgpt.com"));
    assert!(!is_cloudflare_domain("workers.dev.example.org"));
    assert!(mentions_cloudflare("x.pages.dev:443"));
    assert!(is_behind_cloudflare("VLESS://u@A.PAGES.DEV:443"));
    assert!(!is_behind_cloudflare("vless://u@example.org:443"));
    let object = |s: &str| format!("VMess://{}", STANDARD.encode(s));
    assert!(is_behind_cloudflare(&object("{\"add\":\"x\",\"sni\":\"a.workers.dev\"}")));
    assert!(is_behind_cloudflare(&object("{\"host\":\"a.trycloudflare.com\"}")));
    assert!(!is_behind_cloudflare(&object("{\"add\":\"workers.dev.x\"}")));
    assert!(!is_behind_cloudflare(&object("[\"a.workers.dev\"]")));
    assert!(!is_behind_cloudflare("vmess://.workers.dev"));
}

#[test]
fn lists_are_saved_plain_and_in_base64() {
    assert!(save_content("x", &TextSet::new()).is_none());
    let f = save_content("ss", &set(&["ss://b", "ss://a"])).unwrap();
    assert_eq!(f.text_name, "ss.txt");
    assert_eq!(f.text, "ss://a\nss://b");
    assert_eq!(f.base64_name, "ss_base64.txt");
    assert_eq!(f.base64, "c3M6Ly9hCnNzOi8vYg==");
    assert_eq!(STANDARD.decode(&f.base64).unwrap(), f.text.as_bytes());
}

#[test]
fn saved_lists_read_back() {
    let links = set(&["ss://1", "vless://2 x", "é"]);
    let f = save_content("m", &links).unwrap();
    assert_eq!(read_existing_set(&f.text).to_vec(), links.to_vec());
    assert_eq!(read_existing_set(" a \r\n\n\tb\na").to_vec(), vec!["a", "b"]);
    assert!(read_existing_set("").is_empty());
}

#[test]
fn appending_keeps_the_old_and_adds_the_new_once() {
    let f = save_content_append("m", "b\na", &set(&["c", "a"])).unwrap();
    assert_eq!(f.text, "a\nb\nc");
    let again = save_content_append("m", &f.text, &set(&["c", "a"])).unwrap();
    assert_eq!(again.text, f.text);
    assert!(save_content_append("m", "b", &TextSet::new()).is_none());
}

#[test]
fn every_protocol_and_the_common_lists_are_planned() {
    let good = format!("tg://proxy?secret={}", HEX);
    let mut m = TextMap::new();
    m.insert("dns".to_string(), set(&["dns://1"]));
    m.insert("empty".to_string(), TextSet::new());
    m.insert("slipnet".to_string(), set(&["slipnet://1"]));
    m.insert("slipnet-enc".to_string(), set(&["slipnet-enc://2"]));
    m.insert("ss".to_string(), set(&["ss://1@x.pages.dev", "ss://2"]));
    m.insert("tg".to_string(), set(&[good.as_str(), "tg://proxy"]));
    m.insert("vless".to_string(), set(&["vless://1"]));
    let plan: Vec<(String, Vec<String>)> = write_files_standard_append(&m)
        .into_iter()
        .map(|b| (b.name, b.links.to_vec()))
        .collect();
    let names: Vec<&str> = plan.iter().map(|p| p.0.as_str()).collect();
    assert_eq!(
        names,
        vec![
            "dns", "slipnet", "slipnet-enc", "ss", "tg_windows", "tg_android", "tg", "vless",
            "mixed", "cloudflare", "slipnet_mixed"
        ]
    );
    assert_eq!(plan[8].1, vec!["ss://1@x.pages.dev", "ss://2", "vless://1"]);
    assert_eq!(plan[9].1, vec!["ss://1@x.pages.dev"]);
    assert_eq!(plan[10].1, vec!["slipnet-enc://2", "slipnet://1"]);
    let files = write_files_standard(&m);
    assert_eq!(files.len(), 11);
    assert_eq!(files[3].text_name, "ss.txt");
    assert_eq!(files[8].text, "ss://1@x.pages.dev\nss://2\nvless://1");
}

#[test]
fn telegram_links_are_parted_without_loss() {
    let good = format!("tg://proxy?secret={}", HEX);
    let mut m = TextMap::new();
    m.insert("tg".to_string(), set(&[good.as_str(), "tg://proxy"]));
    let files = write_files_standard(&m);
    let named = |n: &str| files.iter().find(|f| f.text_name == n).map(|f| f.text.clone());
    assert_eq!(named("tg_windows.txt"), Some(good.clone()));
    assert_eq!(named("tg_android.txt"), Some("tg://proxy".to_string()));
    assert_eq!(files.len(), 3);
}

#[test]
fn the_common_list_can_stand_alone() {
    assert_eq!(write_mixed_only(&set(&["a"])).unwrap().text_name, "mixed.txt");
    assert_eq!(write_mixed_only_append("b", &set(&["a"])).unwrap().text, "a\nb");
    assert!(write_mixed_only(&TextSet::new()).is_none());
    assert!(mixes("ss"));
    for p in NON_MIXED_PROTOCOLS {
        assert!(!mixes(p));
    }
}
