//! Settings, and what is remembered from one run to the next.

use vstd::prelude::*;

use crate::collections::{listing, TextMap};
use crate::outside::{path_separator, utc_now};

verus! {

pub const APP_CONFIG_PATH: &'static str = "config/app_config.toml";

pub const CHANNELS_PATH: &'static str = "config/channels.txt";

pub const SUBSCRIPTIONS_PATH: &'static str = "config/subscriptions.txt";

pub const HISTORY_PATH: &'static str = "config/sent_history.json";

pub const MEMORY_PATH: &'static str = "config/channel_memory.json";

/// The channels that are scanned where the user names none.
pub const DEFAULT_TARGETS: &'static str = "@AHWAZIConnect\n@AKLISvpn\n@AR14N24B\n@AzadNet\n@BahamestanAzadi\n@BugFreeNet\n@Capoit\n@Config724\n@DarcProxy\n@DirectVPN\n@Express_freevpn\n@Filter_breaker\n@Go_vpns\n@Gozarnetir\n@HOKM_AKHAR\n@Hiddify_Nexttt\n@IranProxyPlus\n@KIA_NET\n@KW1VPN\n@Khosrow_vpn\n@LagVPN\n@LetIranBreath\n@Lx3vpn\n@MARAMBASHI\n@Masyakata\n@MatinSenPaii\n@Maznet\n@MerlinVpn\n@NetAccount\n@PathToArrive\n@PewezaVPN\n@PrivateVPNs\n@ProfxPsiphon\n@ProxyFa10\n@SOSkeyNET\n@SamnetInternet\n@ShadowProxy66\n@ShadowSocks_s\n@SorushVpn\n@Speeds_vpn1\n@V2ray20261\n@V2rayEnglish\n@V2raybazi\n@VPN_KING_V2RAY\n@Varkana0\n@Vpn_Sky\n@Vpn_m2s\n@Wpnfa\n@XV2RAY\n@acccrd\n@airdrop2033\n@allworldcfg\n@amir_webstudio\n@anty_filter\n@asrnovin_ir\n@chillguy_vpn\n@club_profsor\n@configfa\n@configraygan\n@filembad\n@free_fastvpn\n@free_netplus\n@freedom_soldiers1\n@freev2config\n@habsiop\n@hacknashidd\n@hamedvpns\n@i10VPN\n@iVPN26\n@irFreeProxy\n@irazadd\n@irdnstt\n@isprox\n@llFreak\n@meliproxyy\n@mindism\n@mypremium98\n@net_cir\n@our_time_is_now\n@persianvpnhub\n@proxy_kafee\n@proxy_online_net\n@prrofile_purple\n@saministamm\n@sinavm\n@tel_melli\n@v2FreeHub\n@v2nodes\n@vasl_bashim\n@vaslbashi\n@vmessorg\n@wiki_tajrobe\n@xsfilternet\n@yebekhe\n@zede_filteri";

/// The protocols whose links are collected.
pub const DEFAULT_PROTOCOLS: [&'static str; 27] = [
    "vmess",
    "vless",
    "trojan",
    "ss",
    "ssr",
    "tuic",
    "hysteria",
    "hysteria2",
    "hy2",
    "juicity",
    "snell",
    "anytls",
    "ssh",
    "wireguard",
    "wg",
    "warp",
    "socks",
    "socks4",
    "socks5",
    "tg",
    "dns",
    "nm-dns",
    "nm-vless",
    "slipnet-enc",
    "slipnet",
    "slipstream",
    "dnstt",
];

/// The texts of a list of names.
pub open spec fn names(list: Seq<&'static str>) -> Seq<Seq<char>> {
    Seq::new(list.len(), |i: int| list[i]@)
}

// ---------------------------------------------------------------------------
// Settings
// ---------------------------------------------------------------------------

/// How requests reach the network.
#[derive(Clone, Copy, Debug, PartialEq, Eq, Hash, Structural)]
pub enum ProxyType {
    Direct,
    System,
    Http,
    Socks5,
}

/// Where links are collected from.
#[derive(Clone, Copy, Debug, PartialEq, Eq, Structural)]
pub enum InputSourceMode {
    TelegramChannels,
    SubscriptionLinks,
    LocalTextFolder,
}

impl Default for InputSourceMode {
    fn default() -> (r: Self)
        ensures
            r == InputSourceMode::TelegramChannels,
    {
        InputSourceMode::TelegramChannels
    }
}

/// How much the machine is asked to do at once.
#[derive(Clone, Copy, Debug, PartialEq, Eq, Structural)]
pub enum PerformanceProfile {
    WeakPC,
    MediumPC,
    StrongPC,
    Custom,
}

/// How many links of a protocol are kept at most; zero is no limit. Whether the
/// protocol is ticked in the window is kept beside it, and no limit reads that.
#[derive(Clone, Copy, Debug)]
pub struct ProtocolRule {
    pub enabled: bool,
    pub max_count: usize,
}

/// How links are tested.
#[derive(Clone, Debug)]
pub struct TesterConfig {
    pub enabled: bool,
    pub concurrent_tests: usize,
    pub core_type: String,
    pub max_delay_ms: u32,
    pub retries: u16,
    pub resolve_real_ip: bool,
    pub timeout_secs: u64,
    pub test_url: String,
    pub ping_test_enabled: bool,
    pub ping_test_url: String,
    pub ping_url_preset: u8,
    pub speed_test_enabled: bool,
    pub speed_test_url: String,
    pub speed_url_preset: u8,
    pub speed_url_supports_bytes_query: bool,
    pub speed_test_amount_kb: u32,
    pub speed_test_top_count: usize,
    pub speed_test_batch_size: usize,
    pub speed_test_timeout_secs: u64,
    pub append_ping_flag: bool,
    pub append_speed_flag: bool,
    pub append_country_flag: bool,
    pub speed_test_from_ping_passed_only: bool,
    pub extra_xray_args: String,
    pub xray_knife_path: String,
    pub allow_insecure: bool,
    pub xray_verbose_logs: bool,
    pub show_xray_window_on_windows: bool,
    pub progress_log_step_percent: u8,
    pub notify_on_found: bool,
    pub beep_on_found: bool,
}

/// What a preset sets: how many tests run at once, how slow and how often
/// repeated a test may be, where it connects to, and how strict it is.
pub open spec fn has_preset(
    c: TesterConfig,
    tests: int,
    delay: int,
    retries: int,
    timeout: int,
    test_url: Seq<char>,
    ping_url: Seq<char>,
    preset: int,
    insecure: bool,
) -> bool {
    &&& c.concurrent_tests == tests
    &&& c.max_delay_ms == delay
    &&& c.retries == retries
    &&& c.resolve_real_ip
    &&& c.timeout_secs == timeout
    &&& c.test_url@ == test_url
    &&& c.ping_test_url@ == ping_url
    &&& c.ping_url_preset == preset
    &&& c.allow_insecure == insecure
}

/// The preset for ordinary conditions.
pub open spec fn has_normal_preset(c: TesterConfig) -> bool {
    has_preset(
        c,
        50,
        5000,
        1,
        10,
        "https://cloudflare.com/cdn-cgi/trace"@,
        "https://cloudflare.com/cdn-cgi/trace"@,
        4,
        false,
    )
}

/// The preset for harsh conditions.
pub open spec fn has_extreme_preset(c: TesterConfig) -> bool {
    has_preset(
        c,
        100,
        30000,
        2,
        60,
        "https://telegram.org/"@,
        "https://telegram.org/favicon.ico"@,
        1,
        true,
    )
}

/// The two agree in all that no preset sets.
pub open spec fn same_beside_presets(a: TesterConfig, b: TesterConfig) -> bool {
    &&& a.enabled == b.enabled
    &&& a.core_type == b.core_type
    &&& a.ping_test_enabled == b.ping_test_enabled
    &&& a.speed_test_enabled == b.speed_test_enabled
    &&& a.speed_test_url == b.speed_test_url
    &&& a.speed_url_preset == b.speed_url_preset
    &&& a.speed_url_supports_bytes_query == b.speed_url_supports_bytes_query
    &&& a.speed_test_amount_kb == b.speed_test_amount_kb
    &&& a.speed_test_top_count == b.speed_test_top_count
    &&& a.speed_test_batch_size == b.speed_test_batch_size
    &&& a.speed_test_timeout_secs == b.speed_test_timeout_secs
    &&& a.append_ping_flag == b.append_ping_flag
    &&& a.append_speed_flag == b.append_speed_flag
    &&& a.append_country_flag == b.append_country_flag
    &&& a.speed_test_from_ping_passed_only == b.speed_test_from_ping_passed_only
    &&& a.extra_xray_args == b.extra_xray_args
    &&& a.xray_knife_path == b.xray_knife_path
    &&& a.xray_verbose_logs == b.xray_verbose_logs
    &&& a.show_xray_window_on_windows == b.show_xray_window_on_windows
    &&& a.progress_log_step_percent == b.progress_log_step_percent
    &&& a.notify_on_found == b.notify_on_found
    &&& a.beep_on_found == b.beep_on_found
}

/// The settings that a first run has, on Windows or elsewhere.
pub open spec fn has_tester_defaults(c: TesterConfig, windows: bool) -> bool {
    &&& has_normal_preset(c)
    &&& c.enabled
    &&& c.core_type@ == "auto"@
    &&& c.ping_test_enabled
    &&& !c.speed_test_enabled
    &&& c.speed_test_url@ == "https://speed.cloudflare.com/__down"@
    &&& c.speed_url_preset == 0
    &&& c.speed_url_supports_bytes_query
    &&& c.speed_test_amount_kb == 5000
    &&& c.speed_test_top_count == 300
    &&& c.speed_test_batch_size == 10
    &&& c.speed_test_timeout_secs == 10
    &&& c.append_ping_flag
    &&& c.append_speed_flag
    &&& c.append_country_flag
    &&& !c.speed_test_from_ping_passed_only
    &&& c.extra_xray_args@ == ""@
    &&& c.xray_knife_path@ == (if windows {
        "xray-knife.exe"@
    } else {
        "xray-knife"@
    })
    &&& !c.xray_verbose_logs
    &&& c.show_xray_window_on_windows
    &&& c.progress_log_step_percent == 2
    &&& !c.notify_on_found
    &&& !c.beep_on_found
}

impl TesterConfig {
    /// The settings that a first run has, on Windows or elsewhere.
    pub fn for_platform(windows: bool) -> (r: Self)
        ensures
            has_tester_defaults(r, windows),
    {
        TesterConfig {
            enabled: true,
            concurrent_tests: 50,
            core_type: "auto".to_string(),
            max_delay_ms: 5000,
            retries: 1,
            resolve_real_ip: true,
            timeout_secs: 10,
            test_url: "https://cloudflare.com/cdn-cgi/trace".to_string(),
            ping_test_enabled: true,
            ping_test_url: "https://cloudflare.com/cdn-cgi/trace".to_string(),
            ping_url_preset: 4,
            speed_test_enabled: false,
            speed_test_url: "https://speed.cloudflare.com/__down".to_string(),
            speed_url_preset: 0,
            speed_url_supports_bytes_query: true,
            speed_test_amount_kb: 5000,
            speed_test_top_count: 300,
            speed_test_batch_size: 10,
            speed_test_timeout_secs: 10,
            append_ping_flag: true,
            append_speed_flag: true,
            append_country_flag: true,
            speed_test_from_ping_passed_only: false,
            extra_xray_args: "".to_string(),
            xray_knife_path: if windows {
                "xray-knife.exe".to_string()
            } else {
                "xray-knife".to_string()
            },
            allow_insecure: false,
            xray_verbose_logs: false,
            show_xray_window_on_windows: true,
            progress_log_step_percent: 2,
            notify_on_found: false,
            beep_on_found: false,
        }
    }

    /// Sets what the preset for ordinary conditions sets.
    pub fn apply_normal_preset(&mut self)
        ensures
            has_normal_preset(*final(self)),
            same_beside_presets(*old(self), *final(self)),
    {
        self.concurrent_tests = 50;
        self.max_delay_ms = 5000;
        self.retries = 1;
        self.resolve_real_ip = true;
        self.timeout_secs = 10;
        self.test_url = "https://cloudflare.com/cdn-cgi/trace".to_string();
        self.ping_test_url = "https://cloudflare.com/cdn-cgi/trace".to_string();
        self.ping_url_preset = 4;
        self.allow_insecure = false;
    }

    /// Sets what the preset for harsh conditions sets.
    pub fn apply_extreme_preset(&mut self)
        ensures
            has_extreme_preset(*final(self)),
            same_beside_presets(*old(self), *final(self)),
    {
        self.concurrent_tests = 100;
        self.max_delay_ms = 30000;
        self.retries = 2;
        self.resolve_real_ip = true;
        self.timeout_secs = 60;
        self.test_url = "https://telegram.org/".to_string();
        self.ping_test_url = "https://telegram.org/favicon.ico".to_string();
        self.ping_url_preset = 1;
        self.allow_insecure = true;
    }
}

impl Default for TesterConfig {
    fn default() -> (r: Self)
        ensures
            has_tester_defaults(r, true) || has_tester_defaults(r, false),
    {
        TesterConfig::for_platform(path_separator() == '\\')
    }
}

/// Whether the proxies of a protocol are wanted, how many at most (zero is no
/// limit), and how early they come.
#[derive(Clone, Copy, Debug)]
pub struct ClashProtocolRule {
    pub enabled: bool,
    pub max_count: usize,
    pub priority: usize,
}

impl Default for ClashProtocolRule {
    fn default() -> (r: Self)
        ensures
            r == (ClashProtocolRule { enabled: true, max_count: 0, priority: 99 }),
    {
        ClashProtocolRule { enabled: true, max_count: 0, priority: 99 }
    }
}

/// What the Clash output holds.
#[derive(Clone, Debug)]
pub struct ClashConverterConfig {
    pub enabled: bool,
    pub output_full_config: bool,
    pub total_limit: usize,
    pub protocol_rules: TextMap<ClashProtocolRule>,
}

/// Where and how tested links are published.
#[derive(Clone, Debug)]
pub struct Phase5TelegramConfig {
    pub enabled: bool,
    pub bot_token: String,
    pub chat_id: String,
    pub post_config_count: usize,
    pub header_enabled: bool,
    pub header_text: String,
    pub footer_enabled: bool,
    pub footer_text: String,
}

/// The settings that a first run has.
pub open spec fn has_telegram_defaults(c: Phase5TelegramConfig) -> bool {
    &&& !c.enabled
    &&& c.bot_token@ == ""@
    &&& c.chat_id@ == ""@
    &&& c.post_config_count == 10
    &&& !c.header_enabled
    &&& c.header_text@ == ""@
    &&& !c.footer_enabled
    &&& c.footer_text@ == ""@
}

impl Default for Phase5TelegramConfig {
    fn default() -> (r: Self)
        ensures
            has_telegram_defaults(r),
    {
        Phase5TelegramConfig {
            enabled: false,
            bot_token: "".to_string(),
            chat_id: "".to_string(),
            post_config_count: 10,
            header_enabled: false,
            header_text: "".to_string(),
            footer_enabled: false,
            footer_text: "".to_string(),
        }
    }
}

/// `rules`, and for `name` the rule with that priority where there was none.
pub open spec fn or_rule(
    rules: Map<Seq<char>, ClashProtocolRule>,
    name: Seq<char>,
    priority: usize,
) -> Map<Seq<char>, ClashProtocolRule> {
    if rules.contains_key(name) {
        rules
    } else {
        rules.insert(name, ClashProtocolRule { enabled: true, max_count: 0, priority })
    }
}

/// `rules`, and a rule for each protocol of a Clash configuration that had none.
pub open spec fn completed_clash(rules: Map<Seq<char>, ClashProtocolRule>) -> Map<
    Seq<char>,
    ClashProtocolRule,
> {
    let a = or_rule(rules, "vless"@, 1);
    let b = or_rule(a, "ss"@, 2);
    let c = or_rule(b, "trojan"@, 3);
    let d = or_rule(c, "vmess"@, 4);
    or_rule(d, "hysteria2"@, 5)
}

fn add_clash_rule(rules: &mut TextMap<ClashProtocolRule>, name: &str, priority: usize)
    ensures
        final(rules)@ == or_rule(old(rules)@, name@, priority),
{
    if !rules.contains_key(name) {
        rules.insert(
            name.to_string(),
            ClashProtocolRule { enabled: true, max_count: 0, priority },
        );
    }
}

fn complete_clash(rules: &mut TextMap<ClashProtocolRule>)
    ensures
        final(rules)@ == completed_clash(old(rules)@),
{
    add_clash_rule(rules, "vless", 1);
    add_clash_rule(rules, "ss", 2);
    add_clash_rule(rules, "trojan", 3);
    add_clash_rule(rules, "vmess", 4);
    add_clash_rule(rules, "hysteria2", 5);
}

/// The settings that a first run has.
pub open spec fn has_clash_defaults(c: ClashConverterConfig) -> bool {
    &&& c.enabled
    &&& c.output_full_config
    &&& c.total_limit == 0
    &&& c.protocol_rules@ == completed_clash(Map::empty())
}

impl Default for ClashConverterConfig {
    fn default() -> (r: Self)
        ensures
            has_clash_defaults(r),
    {
        let mut protocol_rules: TextMap<ClashProtocolRule> = TextMap::new();
        complete_clash(&mut protocol_rules);
        ClashConverterConfig {
            enabled: true,
            output_full_config: true,
            total_limit: 0,
            protocol_rules,
        }
    }
}

/// All settings.
#[derive(Clone, Debug)]
pub struct AppConfig {
    pub input_mode: InputSourceMode,
    pub local_text_folder: String,
    pub interval_minutes: u64,
    pub max_pages_per_channel: usize,
    pub lookback_days: i64,
    pub proxy_type: ProxyType,
    pub proxy_host: String,
    pub proxy_port: u16,
    pub performance: PerformanceProfile,
    pub delay_ms: u64,
    pub timeout_secs: u64,
    pub concurrent_channels: usize,
    pub ignore_ssl_errors: bool,
    pub remote_dns: bool,
    pub output_directory: String,
    pub output_new_only_enabled: bool,
    pub output_append_unique_enabled: bool,
    pub app_update_repo: String,
    pub protocol_rules: TextMap<ProtocolRule>,
    pub tester: TesterConfig,
    pub clash_converter: ClashConverterConfig,
    pub phase5_telegram: Phase5TelegramConfig,
}

/// The rule of a protocol that none is set for.
pub open spec fn open_rule() -> ProtocolRule {
    ProtocolRule { enabled: true, max_count: 0 }
}

/// `rules`, and the open rule for each of the protocols `list` that had none.
pub open spec fn completed_from(
    rules: Map<Seq<char>, ProtocolRule>,
    list: Seq<Seq<char>>,
) -> Map<Seq<char>, ProtocolRule> {
    Map::new(
        |k: Seq<char>| rules.contains_key(k) || list.contains(k),
        |k: Seq<char>|
            if rules.contains_key(k) {
                rules[k]
            } else {
                open_rule()
            },
    )
}

/// `rules`, and the open rule for each known protocol that had none.
pub open spec fn completed(rules: Map<Seq<char>, ProtocolRule>) -> Map<Seq<char>, ProtocolRule> {
    completed_from(rules, names(DEFAULT_PROTOCOLS@))
}

fn complete(rules: &mut TextMap<ProtocolRule>)
    ensures
        final(rules)@ == completed(old(rules)@),
{
    let ghost start = rules@;
    let ghost list = names(DEFAULT_PROTOCOLS@);
    assert(completed_from(start, list.take(0)) =~= start);
    for i in 0..DEFAULT_PROTOCOLS.len()
        invariant
            list == names(DEFAULT_PROTOCOLS@),
            rules@ == completed_from(start, list.take(i as int)),
    {
        let name = DEFAULT_PROTOCOLS[i];
        proof {
            let next = list.take(i + 1);
            assert(next =~= list.take(i as int).push(list[i as int]));
            assert(list[i as int] == name@);
            assert(next.contains(name@)) by {
                assert(next[i as int] == name@);
            }
            assert forall|k: Seq<char>| next.contains(k) <==> list.take(i as int).contains(k) || k
                == name@ by {
                if list.take(i as int).contains(k) {
                    let m = list.take(i as int).index_of(k);
                    assert(next[m] == k);
                }
                if next.contains(k) && k != name@ {
                    let m = next.index_of(k);
                    assert(list.take(i as int)[m] == k);
                }
            }
            assert(rules@.contains_key(name@) ==> rules@ =~= completed_from(start, next));
            assert(!rules@.contains_key(name@) ==> rules@.insert(name@, open_rule())
                =~= completed_from(start, next));
        }
        if !rules.contains_key(name) {
            rules.insert(name.to_string(), ProtocolRule { enabled: true, max_count: 0 });
        }
    }
    assert(list.take(DEFAULT_PROTOCOLS@.len() as int) =~= list);
}

/// The settings that a first run has, on Windows or elsewhere.
pub open spec fn has_app_defaults(c: AppConfig, windows: bool) -> bool {
    &&& c.input_mode == InputSourceMode::LocalTextFolder
    &&& c.local_text_folder@ == "d:\\ConfigCollectorWindowsnew\\list config"@
    &&& c.interval_minutes == 15
    &&& c.max_pages_per_channel == 10
    &&& c.lookback_days == 1
    &&& c.proxy_type == ProxyType::Direct
    &&& c.proxy_host@ == "127.0.0.1"@
    &&& c.proxy_port == 10808
    &&& c.performance == PerformanceProfile::MediumPC
    &&& c.delay_ms == 2000
    &&& c.timeout_secs == 15
    &&& c.concurrent_channels == 3
    &&& c.ignore_ssl_errors
    &&& c.remote_dns
    &&& c.output_directory@ == "output"@
    &&& c.output_new_only_enabled
    &&& c.output_append_unique_enabled
    &&& c.app_update_repo@ == "10ium/ConfigCollectorWindows"@
    &&& c.protocol_rules@ == completed(Map::empty())
    &&& has_tester_defaults(c.tester, windows)
    &&& has_clash_defaults(c.clash_converter)
    &&& has_telegram_defaults(c.phase5_telegram)
}

impl Default for AppConfig {
    fn default() -> (r: Self)
        ensures
            has_app_defaults(r, true) || has_app_defaults(r, false),
    {
        let mut protocol_rules: TextMap<ProtocolRule> = TextMap::new();
        complete(&mut protocol_rules);
        AppConfig {
            input_mode: InputSourceMode::LocalTextFolder,
            local_text_folder: "d:\\ConfigCollectorWindowsnew\\list config".to_string(),
            interval_minutes: 15,
            max_pages_per_channel: 10,
            lookback_days: 1,
            proxy_type: ProxyType::Direct,
            proxy_host: "127.0.0.1".to_string(),
            proxy_port: 10808,
            performance: PerformanceProfile::MediumPC,
            delay_ms: 2000,
            timeout_secs: 15,
            concurrent_channels: 3,
            ignore_ssl_errors: true,
            remote_dns: true,
            output_directory: "output".to_string(),
            output_new_only_enabled: true,
            output_append_unique_enabled: true,
            app_update_repo: "10ium/ConfigCollectorWindows".to_string(),
            protocol_rules,
            tester: TesterConfig::default(),
            clash_converter: ClashConverterConfig::default(),
            phase5_telegram: Phase5TelegramConfig::default(),
        }
    }
}

/// `c` with the given pause, time limit and numbers of channels and tests.
pub open spec fn paced(
    c: AppConfig,
    delay_ms: u64,
    timeout_secs: u64,
    concurrent_channels: usize,
    concurrent_tests: usize,
) -> AppConfig {
    AppConfig {
        delay_ms,
        timeout_secs,
        concurrent_channels,
        tester: TesterConfig { concurrent_tests, ..c.tester },
        ..c
    }
}

/// `c` with the pause, the time limit and the numbers of channels and tests
/// that its profile asks for.
pub open spec fn with_profile(c: AppConfig) -> AppConfig {
    match c.performance {
        PerformanceProfile::WeakPC => paced(c, 5000, 30, 1, 20),
        PerformanceProfile::MediumPC => paced(c, 2000, 15, 3, 50),
        PerformanceProfile::StrongPC => paced(c, 500, 10, 8, 100),
        PerformanceProfile::Custom => c,
    }
}

impl AppConfig {
    /// Sets what the performance profile asks for.
    pub fn apply_profile_defaults(&mut self)
        ensures
            *final(self) == with_profile(*old(self)),
    {
        match self.performance {
            PerformanceProfile::WeakPC => self.set_pace(5000, 30, 1, 20),
            PerformanceProfile::MediumPC => self.set_pace(2000, 15, 3, 50),
            PerformanceProfile::StrongPC => self.set_pace(500, 10, 8, 100),
            PerformanceProfile::Custom => {},
        }
    }

    fn set_pace(
        &mut self,
        delay_ms: u64,
        timeout_secs: u64,
        concurrent_channels: usize,
        concurrent_tests: usize,
    )
        ensures
            *final(self) == paced(
                *old(self),
                delay_ms,
                timeout_secs,
                concurrent_channels,
                concurrent_tests,
            ),
    {
        self.delay_ms = delay_ms;
        self.timeout_secs = timeout_secs;
        self.concurrent_channels = concurrent_channels;
        self.tester.concurrent_tests = concurrent_tests;
    }

    /// Adds the rules that loaded settings lack; what is set stays.
    pub fn fill_missing_rules(&mut self)
        ensures
            final(self).protocol_rules@ == completed(old(self).protocol_rules@),
            final(self).clash_converter.protocol_rules@ == completed_clash(
                old(self).clash_converter.protocol_rules@,
            ),
            *final(self) == (AppConfig {
                protocol_rules: final(self).protocol_rules,
                clash_converter: ClashConverterConfig {
                    protocol_rules: final(self).clash_converter.protocol_rules,
                    ..old(self).clash_converter
                },
                ..*old(self)
            }),
    {
        complete(&mut self.protocol_rules);
        complete_clash(&mut self.clash_converter.protocol_rules);
    }

    /// The settings to go on with: those loaded, with the rules that they lack,
    /// or else those of a first run.
    pub fn or_default(loaded: Option<AppConfig>) -> (r: AppConfig)
        ensures
            match loaded {
                Some(c) => r.protocol_rules@ == completed(c.protocol_rules@)
                    && r.clash_converter.protocol_rules@ == completed_clash(
                    c.clash_converter.protocol_rules@,
                ) && r == (AppConfig {
                    protocol_rules: r.protocol_rules,
                    clash_converter: ClashConverterConfig {
                        protocol_rules: r.clash_converter.protocol_rules,
                        ..c.clash_converter
                    },
                    ..c
                }),
                None => has_app_defaults(r, true) || has_app_defaults(r, false),
            },
    {
        match loaded {
            Some(c) => {
                let mut config = c;
                config.fill_missing_rules();
                config
            },
            None => AppConfig::default(),
        }
    }
}

// ---------------------------------------------------------------------------
// Memory
// ---------------------------------------------------------------------------

/// The highest post seen of each channel.
#[derive(Clone, Debug)]
pub struct ChannelMemory {
    pub last_seen_ids: TextMap<u64>,
}

impl Default for ChannelMemory {
    fn default() -> (r: Self)
        ensures
            r.last_seen_ids@ == Map::<Seq<char>, u64>::empty(),
    {
        ChannelMemory { last_seen_ids: TextMap::new() }
    }
}

/// An instant: whole seconds since the start of 1970, and nanoseconds.
#[derive(Clone, Copy, Debug, PartialEq, Eq, Structural)]
pub struct Timestamp {
    pub secs: i64,
    pub nanos: u32,
}

impl Timestamp {
    /// The present instant: not before the start of 1970, with less than a
    /// second of nanoseconds.
    pub fn now() -> (r: Self)
        ensures
            r.secs >= 0,
            r.nanos < 1_000_000_000,
    {
        let t = utc_now();
        Timestamp { secs: t.0, nanos: t.1 }
    }
}

/// `t` is not before the instant `days` days before `now`; a negative number
/// of days counts as none.
pub open spec fn within(t: Timestamp, now: Timestamp, days: int) -> bool {
    let start = now.secs - 86400 * (if days > 0 {
        days
    } else {
        0
    });
    t.secs > start || (t.secs == start && t.nanos >= now.nanos)
}

/// Whether `t` is not before the instant `days` days before `now`; a negative
/// number of days counts as none.
pub fn is_within(t: Timestamp, now: Timestamp, days: i64) -> (r: bool)
    ensures
        r == within(t, now, days as int),
{
    let back: i128 = if days > 0 {
        days as i128
    } else {
        0
    };
    let start: i128 = now.secs as i128 - 86400 * back;
    t.secs as i128 > start || (t.secs as i128 == start && t.nanos >= now.nanos)
}

/// When each link was first handed out.
#[derive(Clone, Debug)]
pub struct SentHistory {
    pub sent_at: TextMap<Timestamp>,
}

impl Default for SentHistory {
    fn default() -> (r: Self)
        ensures
            r.sent_at@ == Map::<Seq<char>, Timestamp>::empty(),
    {
        SentHistory { sent_at: TextMap::new() }
    }
}

/// What is left of `sent` when all before the last `days` days is forgotten.
pub open spec fn recent(sent: Map<Seq<char>, Timestamp>, now: Timestamp, days: int) -> Map<
    Seq<char>,
    Timestamp,
> {
    Map::new(
        |k: Seq<char>| sent.contains_key(k) && within(sent[k], now, days),
        |k: Seq<char>| sent[k],
    )
}

impl SentHistory {
    /// Forgets what was handed out before the last `lookback_days` days, as of `now`.
    pub fn prune_at(&mut self, now: Timestamp, lookback_days: i64)
        ensures
            final(self).sent_at@ == recent(old(self).sent_at@, now, lookback_days as int),
    {
        let ghost sent = self.sent_at@;
        let ghost keys = listing(sent.dom());
        let mut kept: TextMap<Timestamp> = TextMap::new();
        let n: usize = self.sent_at.len();
        for i in 0..n
            invariant
                sent == self.sent_at@,
                keys == listing(sent.dom()),
                keys.to_set() == sent.dom(),
                n == keys.len(),
                forall|k: Seq<char>| #[trigger]
                    kept@.contains_key(k) <==> keys.take(i as int).contains(k) && within(
                        sent[k],
                        now,
                        lookback_days as int,
                    ),
                forall|k: Seq<char>| #[trigger] kept@.contains_key(k) ==> kept@[k] == sent[k],
        {
            let t = *self.sent_at.value(i);
            let k = self.sent_at.key(i);
            proof {
                let prev = keys.take(i as int);
                let next = keys.take(i + 1);
                assert forall|z: Seq<char>| next.contains(z) <==> prev.contains(z) || z == keys[i as int] by {
                    if prev.contains(z) {
                        let m = prev.index_of(z);
                        assert(next[m] == z);
                    }
                    if next.contains(z) {
                        let m = next.index_of(z);
                        if m < i {
                            assert(prev[m] == z);
                        }
                    }
                    assert(next[i as int] == keys[i as int]);
                }
            }
            if is_within(t, now, lookback_days) {
                kept.insert(k.clone(), t);
            }
        }
        proof {
            assert(keys.take(n as int) =~= keys);
            assert forall|k: Seq<char>| kept@.contains_key(k) <==> recent(
                sent,
                now,
                lookback_days as int,
            ).contains_key(k) by {
                assert(keys.contains(k) <==> keys.to_set().contains(k));
            }
            assert(kept@ =~= recent(sent, now, lookback_days as int));
        }
        self.sent_at = kept;
    }

    /// Forgets what was handed out before the last `lookback_days` days, as of an
    /// instant that is not before the start of 1970.
    pub fn prune(&mut self, lookback_days: i64)
        ensures
            exists|now: Timestamp|
                now.secs >= 0 && now.nanos < 1_000_000_000 && #[trigger] recent(
                    old(self).sent_at@,
                    now,
                    lookback_days as int,
                ) == final(self).sent_at@,
    {
        let now = Timestamp::now();
        self.prune_at(now, lookback_days);
    }
}

// ---------------------------------------------------------------------------
// Laws
// ---------------------------------------------------------------------------

/// Applying a profile twice is applying it once, and the profile itself stays.
pub proof fn profile_applies_once(c: AppConfig)
    ensures
        with_profile(with_profile(c)) == with_profile(c),
        with_profile(c).performance == c.performance,
{
    lemma_paced_once(c, 5000, 30, 1, 20);
    lemma_paced_once(c, 2000, 15, 3, 50);
    lemma_paced_once(c, 500, 10, 8, 100);
    let d = with_profile(c);
    assert(d.performance == c.performance);
    if c.performance is WeakPC {
        assert(with_profile(d) == paced(d, 5000, 30, 1, 20));
    } else if c.performance is MediumPC {
        assert(with_profile(d) == paced(d, 2000, 15, 3, 50));
    } else if c.performance is StrongPC {
        assert(with_profile(d) == paced(d, 500, 10, 8, 100));
    }
}

proof fn lemma_paced_once(
    c: AppConfig,
    delay_ms: u64,
    timeout_secs: u64,
    channels: usize,
    tests: usize,
)
    ensures
        paced(paced(c, delay_ms, timeout_secs, channels, tests), delay_ms, timeout_secs, channels, tests)
            == paced(c, delay_ms, timeout_secs, channels, tests),
        paced(c, delay_ms, timeout_secs, channels, tests).performance == c.performance,
{
}

/// The settings of a first run are those that their own profile asks for.
pub proof fn defaults_match_their_profile(c: AppConfig, windows: bool)
    requires
        has_app_defaults(c, windows),
    ensures
        with_profile(c) == c,
{
}

/// After either preset the other one leaves no trace of it.
pub proof fn presets_undo_each_other(a: TesterConfig, b: TesterConfig, c: TesterConfig)
    requires
        has_extreme_preset(b) && same_beside_presets(a, b),
        has_normal_preset(c) && same_beside_presets(b, c),
        has_normal_preset(a),
    ensures
        same_beside_presets(a, c),
        c.concurrent_tests == a.concurrent_tests,
        c.max_delay_ms == a.max_delay_ms,
        c.retries == a.retries,
        c.resolve_real_ip == a.resolve_real_ip,
        c.timeout_secs == a.timeout_secs,
        c.test_url@ == a.test_url@,
        c.ping_test_url@ == a.ping_test_url@,
        c.ping_url_preset == a.ping_url_preset,
        c.allow_insecure == a.allow_insecure,
{
}

/// Completing rules keeps every rule that is set, covers every known protocol,
/// and adds nothing to rules that are complete.
pub proof fn completing_keeps_and_covers(rules: Map<Seq<char>, ProtocolRule>)
    ensures
        forall|k: Seq<char>| #[trigger]
            rules.contains_key(k) ==> completed(rules).contains_key(k) && completed(rules)[k]
                == rules[k],
        forall|i: int|
            0 <= i < DEFAULT_PROTOCOLS@.len() ==> completed(rules).contains_key(
                #[trigger] names(DEFAULT_PROTOCOLS@)[i],
            ),
        completed(completed(rules)) == completed(rules),
{
    let list = names(DEFAULT_PROTOCOLS@);
    assert forall|i: int| 0 <= i < DEFAULT_PROTOCOLS@.len() implies completed(rules).contains_key(
        #[trigger] list[i],
    ) by {
        assert(list.contains(list[i]));
    }
    assert(completed(completed(rules)) =~= completed(rules));
}

/// Completing Clash rules keeps every rule that is set, and adds nothing to
/// rules that are complete.
pub proof fn completing_clash_keeps(rules: Map<Seq<char>, ClashProtocolRule>)
    ensures
        forall|k: Seq<char>| #[trigger]
            rules.contains_key(k) ==> completed_clash(rules).contains_key(k) && completed_clash(
                rules,
            )[k] == rules[k],
        completed_clash(completed_clash(rules)) == completed_clash(rules),
{
}

/// Forgetting keeps what is recent, each with its own instant; forgetting
/// again at the same instant changes nothing, and looking back further keeps
/// at least as much.
pub proof fn forgetting_is_stable(
    sent: Map<Seq<char>, Timestamp>,
    now: Timestamp,
    days: int,
    more: int,
)
    requires
        days <= more,
    ensures
        recent(sent, now, days).submap_of(sent),
        recent(recent(sent, now, days), now, days) == recent(sent, now, days),
        recent(sent, now, days).submap_of(recent(sent, now, more)),
{
    assert(recent(recent(sent, now, days), now, days) =~= recent(sent, now, days));
    assert forall|t: Timestamp| within(t, now, days) implies #[trigger] within(t, now, more) by {
        assert(86400 * (if days > 0 { days } else { 0 }) <= 86400 * (if more > 0 { more } else { 0 }));
    }
}

/// An instant is within the last days exactly where it is at most that many times
/// 86400 seconds before the present one; a negative number of days counts as none.
pub proof fn days_count_whole(t: Timestamp, now: Timestamp, days: int)
    requires
        t.nanos < 1_000_000_000,
        now.nanos < 1_000_000_000,
    ensures
        days >= 0 ==> (within(t, now, days) <==> t.secs * 1_000_000_000 + t.nanos + days
            * 86_400_000_000_000 >= now.secs * 1_000_000_000 + now.nanos),
        days < 0 ==> (within(t, now, days) <==> t.secs * 1_000_000_000 + t.nanos >= now.secs
            * 1_000_000_000 + now.nanos),
{
}

/// What was handed out within the last days is remembered with its instant, and
/// what was handed out before is not.
pub proof fn history_remembers_the_last_days(
    sent: Map<Seq<char>, Timestamp>,
    now: Timestamp,
    days: int,
    l: Seq<char>,
)
    requires
        sent.contains_key(l),
        days >= 0,
    ensures
        sent[l].secs > now.secs - 86400 * days ==> recent(sent, now, days).contains_key(l)
            && recent(sent, now, days)[l] == sent[l],
        sent[l].secs < now.secs - 86400 * days ==> !recent(sent, now, days).contains_key(l),
{
}

/// A stronger machine is asked for more at once, with shorter pauses and less
/// patience; a profile of one's own changes nothing.
pub proof fn profiles_pace_the_machine(c: AppConfig)
    ensures
        c.performance == PerformanceProfile::WeakPC ==> {
            let d = with_profile(c);
            d.delay_ms == 5000 && d.timeout_secs == 30 && d.concurrent_channels == 1
                && d.tester.concurrent_tests == 20
        },
        c.performance == PerformanceProfile::MediumPC ==> {
            let d = with_profile(c);
            d.delay_ms == 2000 && d.timeout_secs == 15 && d.concurrent_channels == 3
                && d.tester.concurrent_tests == 50
        },
        c.performance == PerformanceProfile::StrongPC ==> {
            let d = with_profile(c);
            d.delay_ms == 500 && d.timeout_secs == 10 && d.concurrent_channels == 8
                && d.tester.concurrent_tests == 100
        },
        c.performance == PerformanceProfile::Custom ==> with_profile(c) == c,
{
}

/// The extreme preset is more patient than the normal one and takes connections
/// that the normal one refuses.
pub proof fn extreme_preset_is_more_patient(a: TesterConfig, b: TesterConfig)
    requires
        has_normal_preset(a),
        has_extreme_preset(b),
    ensures
        a.concurrent_tests == 50 && b.concurrent_tests == 100,
        a.max_delay_ms == 5000 && b.max_delay_ms == 30000,
        a.retries == 1 && b.retries == 2,
        a.timeout_secs == 10 && b.timeout_secs == 60,
        !a.allow_insecure && b.allow_insecure,
        a.resolve_real_ip && b.resolve_real_ip,
        a.ping_url_preset == 4 && b.ping_url_preset == 1,
        a.ping_test_url@ == "https://cloudflare.com/cdn-cgi/trace"@,
        b.ping_test_url@ == "https://telegram.org/favicon.ico"@,
        a.test_url@ == "https://cloudflare.com/cdn-cgi/trace"@,
        b.test_url@ == "https://telegram.org/"@,
{
}

} // verus!
