//! What the window shows, and how it changes.

use vstd::prelude::*;

use crate::collections::TextMap;
use crate::config::{AppConfig, TesterConfig, DEFAULT_TARGETS};
use crate::numbers::{decimal, decimal_text};
use crate::outside::{ascii_lower, ascii_lower_char, is_clock_text, local_clock, CLOCK_FORMAT};
use crate::scraper::{AppEvent, LogLevel};
use crate::text::{concat, contains, holds_text, join, joined, push_text, texts, to_chars};

verus! {

/// A line of the log.
#[derive(Clone, Debug)]
pub struct LogMessage {
    pub time: String,
    pub level: LogLevel,
    pub text: String,
}

/// How much a line of the log matters, and what it says.
pub open spec fn entry(m: LogMessage) -> (LogLevel, Seq<char>) {
    (m.level, m.text@)
}

/// How much the lines of a log matter, and what they say.
pub open spec fn entries(v: Seq<LogMessage>) -> Seq<(LogLevel, Seq<char>)> {
    Seq::new(v.len(), |i: int| entry(v[i]))
}

/// What the window shows.
#[derive(Debug)]
pub struct AppState {
    pub config: AppConfig,
    pub channels_text: String,
    pub subscriptions_text: String,
    pub active_tab: usize,
    pub logs: Vec<LogMessage>,
    pub total_configs: usize,
    pub by_protocol: TextMap<usize>,
    pub running: bool,
}

/// What events change: the log, the counts, and whether the engine runs.
pub struct BoardView {
    pub log: Seq<(LogLevel, Seq<char>)>,
    pub total: usize,
    pub by_protocol: Map<Seq<char>, usize>,
    pub running: bool,
}

impl View for AppState {
    type V = BoardView;

    open spec fn view(&self) -> BoardView {
        BoardView {
            log: entries(self.logs@),
            total: self.total_configs,
            by_protocol: self.by_protocol@,
            running: self.running,
        }
    }
}

/// The settings and texts of both are the same.
pub open spec fn same_settings(a: AppState, b: AppState) -> bool {
    a.config == b.config && a.channels_text == b.channels_text && a.subscriptions_text
        == b.subscriptions_text && a.active_tab == b.active_tab
}

/// `after` has the lines of `before`, each with its time, and behind them only
/// lines with a time of day.
pub open spec fn grown(before: Seq<LogMessage>, after: Seq<LogMessage>) -> bool {
    &&& before.len() <= after.len()
    &&& before == after.take(before.len() as int)
    &&& forall|i: int|
        before.len() <= i < after.len() ==> is_clock_text((#[trigger] after[i]).time@)
}

proof fn lemma_grown(a: Seq<LogMessage>, b: Seq<LogMessage>, c: Seq<LogMessage>)
    ensures
        grown(a, a),
        grown(a, b) && grown(b, c) ==> grown(a, c),
{
    assert(a =~= a.take(a.len() as int));
    if grown(a, b) && grown(b, c) {
        assert(a =~= c.take(a.len() as int));
        assert forall|i: int| a.len() <= i < c.len() implies is_clock_text(
            (#[trigger] c[i]).time@,
        ) by {
            if i < b.len() {
                assert(b[i] == c[i]);
            }
        }
    }
}

/// `v` with one more line in its log.
pub open spec fn logged(v: BoardView, level: LogLevel, text: Seq<char>) -> BoardView {
    BoardView { log: v.log.push((level, text)), ..v }
}

/// What an event leaves on the board.
pub open spec fn after_event(v: BoardView, e: AppEvent) -> BoardView {
    match e {
        AppEvent::Log(level, text) => logged(v, level, text@),
        AppEvent::Stats { total, by_protocol } => BoardView {
            total,
            by_protocol: by_protocol@,
            ..v
        },
        AppEvent::WorkerStopped => logged(
            BoardView { running: false, ..v },
            LogLevel::Warning,
            "💤 Engine safely terminated."@,
        ),
    }
}

/// What the first `n` events leave on the board.
pub open spec fn after_events(v: BoardView, es: Seq<AppEvent>, n: int) -> BoardView
    decreases n,
{
    if n <= 0 {
        v
    } else {
        after_event(after_events(v, es, n - 1), es[n - 1])
    }
}

/// The first line of the log.
pub const BOOT_TEXT: &'static str =
    "🖥️ System Boot: Smart Modular Engine Initialized (Phase 5).";

/// The board when the window opens: the first line, a warning where the tester
/// is on but its program is not there, and that the connection is tested.
pub open spec fn first_board(tester_on: bool, program_there: bool) -> BoardView {
    let boot = BoardView {
        log: seq![(LogLevel::Info, BOOT_TEXT@)],
        total: 0,
        by_protocol: Map::empty(),
        running: false,
    };
    let warned = if tester_on && !program_there {
        logged(
            boot,
            LogLevel::Error,
            "⚠️ xray-knife.exe not found! Please download it from the Tester tab."@,
        )
    } else {
        boot
    };
    logged(warned, LogLevel::Info, "Testing proxy connection..."@)
}

impl AppState {
    /// The state when the window opens, with what was read from disk, where it
    /// could be read.
    pub fn bootstrap(
        config: AppConfig,
        channels: Option<String>,
        subscriptions: Option<String>,
        program_there: bool,
    ) -> (r: Self)
        ensures
            r@ == first_board(config.tester.enabled, program_there),
            grown(Seq::empty(), r.logs@),
            r.config == config,
            r.channels_text@ == (match channels {
                Some(t) => t@,
                None => DEFAULT_TARGETS@,
            }),
            r.subscriptions_text@ == (match subscriptions {
                Some(t) => t@,
                None => ""@,
            }),
            r.active_tab == 0,
    {
        let tester_on = config.tester.enabled;
        let mut state = AppState {
            config,
            channels_text: match channels {
                Some(t) => t,
                None => DEFAULT_TARGETS.to_string(),
            },
            subscriptions_text: match subscriptions {
                Some(t) => t,
                None => "".to_string(),
            },
            active_tab: 0,
            logs: Vec::new(),
            total_configs: 0,
            by_protocol: TextMap::new(),
            running: false,
        };
        let ghost none = state.logs@;
        state.add_log(LogLevel::Info, BOOT_TEXT.to_string());
        let ghost first = state.logs@;
        assert(state@.log =~= seq![(LogLevel::Info, BOOT_TEXT@)]);
        if tester_on && !program_there {
            state.add_log(
                LogLevel::Error,
                "⚠️ xray-knife.exe not found! Please download it from the Tester tab.".to_string(),
            );
        }
        let ghost second = state.logs@;
        state.test_connection();
        proof {
            lemma_grown(first, first, first);
            lemma_grown(none, first, second);
            lemma_grown(none, second, state.logs@);
            assert(none =~= Seq::empty());
        }
        state
    }

    /// Adds a line to the log, with the given time.
    pub fn log_at(&mut self, level: LogLevel, text: String, time: String)
        ensures
            final(self).logs@ == old(self).logs@.push(LogMessage { time, level, text }),
            final(self)@ == logged(old(self)@, level, text@),
            same_settings(*old(self), *final(self)),
    {
        let ghost before = self.logs@;
        self.logs.push(LogMessage { time, level, text });
        assert(entries(self.logs@) =~= entries(before).push((level, text@)));
    }

    /// Adds a line to the log, with the time of day.
    pub fn add_log(&mut self, level: LogLevel, text: String)
        ensures
            exists|time: String|
                is_clock_text(time@) && final(self).logs@ == #[trigger] old(self).logs@.push(
                    LogMessage { time, level, text },
                ),
            final(self)@ == logged(old(self)@, level, text@),
            grown(old(self).logs@, final(self).logs@),
            same_settings(*old(self), *final(self)),
    {
        let ghost before = self.logs@;
        let time = local_clock(CLOCK_FORMAT);
        self.log_at(level, text, time);
        assert(before =~= self.logs@.take(before.len() as int));
    }

    /// Says that the connection through the proxy is tested.
    pub fn test_connection(&mut self)
        ensures
            final(self)@ == logged(old(self)@, LogLevel::Info, "Testing proxy connection..."@),
            grown(old(self).logs@, final(self).logs@),
            same_settings(*old(self), *final(self)),
    {
        self.add_log(LogLevel::Info, "Testing proxy connection...".to_string());
    }

    /// Says that the connection without a proxy is tested.
    pub fn test_direct_connection(&mut self)
        ensures
            final(self)@ == logged(
                old(self)@,
                LogLevel::Info,
                "Testing direct system connection (No Proxy) to soft98.ir..."@,
            ),
            grown(old(self).logs@, final(self).logs@),
            same_settings(*old(self), *final(self)),
    {
        self.add_log(
            LogLevel::Info,
            "Testing direct system connection (No Proxy) to soft98.ir...".to_string(),
        );
    }

    /// Says that the settings were saved, where they were.
    pub fn save_all_settings(&mut self, saved: bool)
        ensures
            final(self)@ == (if saved {
                logged(
                    old(self)@,
                    LogLevel::Success,
                    "💾 All settings and targets saved successfully."@,
                )
            } else {
                old(self)@
            }),
            grown(old(self).logs@, final(self).logs@),
            same_settings(*old(self), *final(self)),
    {
        proof {
            lemma_grown(self.logs@, self.logs@, self.logs@);
        }
        if saved {
            self.add_log(
                LogLevel::Success,
                "💾 All settings and targets saved successfully.".to_string(),
            );
        }
    }

    /// Starts the engine with an empty log, unless it runs already or the tester
    /// is on without its program; says whether it starts.
    pub fn start(&mut self, program_there: bool) -> (r: bool)
        ensures
            r == (!old(self).running && (!old(self).config.tester.enabled || program_there)),
            final(self)@ == (if old(self).running {
                old(self)@
            } else if old(self).config.tester.enabled && !program_there {
                logged(
                    old(self)@,
                    LogLevel::Error,
                    "⛔ Cannot start: Tester is enabled but xray-knife.exe is missing. Download it first!"@,
                )
            } else {
                BoardView { log: Seq::empty(), running: true, ..old(self)@ }
            }),
            !r ==> grown(old(self).logs@, final(self).logs@),
            same_settings(*old(self), *final(self)),
    {
        proof {
            lemma_grown(self.logs@, self.logs@, self.logs@);
        }
        if self.running {
            return false;
        }
        if self.config.tester.enabled && !program_there {
            self.add_log(
                LogLevel::Error,
                "⛔ Cannot start: Tester is enabled but xray-knife.exe is missing. Download it first!".to_string(),
            );
            return false;
        }
        self.logs = Vec::new();
        self.running = true;
        assert(entries(self.logs@) =~= Seq::<(LogLevel, Seq<char>)>::empty());
        true
    }

    /// Says that the engine was told to stop.
    pub fn stop(&mut self)
        ensures
            final(self)@ == logged(
                old(self)@,
                LogLevel::Warning,
                "🛑 Stop signal sent. Interrupting all threads cleanly..."@,
            ),
            grown(old(self).logs@, final(self).logs@),
            same_settings(*old(self), *final(self)),
    {
        self.add_log(
            LogLevel::Warning,
            "🛑 Stop signal sent. Interrupting all threads cleanly...".to_string(),
        );
    }

    fn take_event(&mut self, event: &AppEvent)
        ensures
            final(self)@ == after_event(old(self)@, *event),
            grown(old(self).logs@, final(self).logs@),
            same_settings(*old(self), *final(self)),
    {
        proof {
            lemma_grown(self.logs@, self.logs@, self.logs@);
        }
        match event {
            AppEvent::Log(level, text) => self.add_log(*level, text.clone()),
            AppEvent::Stats { total, by_protocol } => {
                self.total_configs = *total;
                self.by_protocol = copy_counts(by_protocol);
            },
            AppEvent::WorkerStopped => {
                self.running = false;
                self.add_log(LogLevel::Warning, "💤 Engine safely terminated.".to_string());
            },
        }
    }

    /// Takes the events that came since the last time, in order.
    pub fn poll_events(&mut self, events: &Vec<AppEvent>)
        ensures
            final(self)@ == after_events(old(self)@, events@, events@.len() as int),
            grown(old(self).logs@, final(self).logs@),
            same_settings(*old(self), *final(self)),
    {
        let ghost was = *self;
        proof {
            lemma_grown(was.logs@, was.logs@, was.logs@);
        }
        for i in 0..events.len()
            invariant
                self@ == after_events(was@, events@, i as int),
                grown(was.logs@, self.logs@),
                same_settings(was, *self),
        {
            let ghost before = self.logs@;
            self.take_event(&events[i]);
            proof {
                lemma_grown(was.logs@, before, self.logs@);
            }
        }
    }

    /// The log as a text, a line each.
    pub fn log_text(&self) -> (r: String)
        ensures
            r@ == joined(log_lines(self.logs@), "\n"@),
    {
        let ghost all = log_lines(self.logs@);
        let mut out: Vec<String> = Vec::new();
        for i in 0..self.logs.len()
            invariant
                all == log_lines(self.logs@),
                texts(out@) == all.take(i as int),
        {
            let ghost before = out@;
            let mut line = concat("[", &self.logs[i].time);
            push_text(&mut line, "] ");
            push_text(&mut line, &self.logs[i].text);
            out.push(line);
            assert(texts(out@) =~= texts(before).push(all[i as int]));
            assert(all.take(i + 1) =~= all.take(i as int).push(all[i as int]));
        }
        assert(all.take(self.logs@.len() as int) =~= all);
        join(&out, "\n")
    }

    /// The position of the first line of the log that is shown: of a long log
    /// only the last five hundred are.
    pub fn first_shown(&self) -> (r: usize)
        ensures
            r == (if self.logs@.len() > 500 {
                self.logs@.len() - 500
            } else {
                0
            }),
    {
        if self.logs.len() > 500 {
            self.logs.len() - 500
        } else {
            0
        }
    }
}

/// The lines of a log, each with its time.
pub open spec fn log_lines(v: Seq<LogMessage>) -> Seq<Seq<char>> {
    Seq::new(v.len(), |i: int| "["@ + v[i].time@ + "] "@ + v[i].text@)
}

fn copy_counts(m: &TextMap<usize>) -> (r: TextMap<usize>)
    ensures
        r@ == m@,
{
    let r = m.clone();
    assert(r@ =~= m@);
    r
}

/// `s` with its ASCII letters in lower case.
pub fn ascii_lowercase(s: &str) -> (r: String)
    ensures
        r@ == ascii_lower(s@),
{
    let sc = to_chars(s);
    let mut out = String::new();
    for i in 0..sc.len()
        invariant
            sc@ == s@,
            out@ == ascii_lower(s@).take(i as int),
    {
        let c = sc[i];
        let d: char = if 'A' <= c && c <= 'Z' {
            (c as u8 + 32) as char
        } else {
            c
        };
        assert(d == ascii_lower_char(c));
        out.push(d);
        assert(ascii_lower(s@).take(i + 1) =~= ascii_lower(s@).take(i as int).push(
            ascii_lower(s@)[i as int],
        ));
    }
    assert(ascii_lower(s@).take(s@.len() as int) =~= ascii_lower(s@));
    out
}

/// A line of the log that tells of results.
pub open spec fn tells_results(text: Seq<char>) -> bool {
    let t = ascii_lower(text);
    holds_text(t, "passed="@) || holds_text(t, "final_passed"@) || holds_text(t, "sent_configs="@)
        || holds_text(t, "post "@)
}

/// Whether a line of the log tells of results, so that it stands out.
pub fn stands_out(text: &str) -> (r: bool)
    ensures
        r == tells_results(text@),
{
    let t = ascii_lowercase(text);
    contains(&t, "passed=") || contains(&t, "final_passed") || contains(&t, "sent_configs=")
        || contains(&t, "post ")
}

// ---------------------------------------------------------------------------
// Connection tests
// ---------------------------------------------------------------------------

/// What came of testing a connection: the milliseconds it took, no page, or no
/// client to ask with.
#[derive(Clone, Copy, Debug)]
pub enum Check {
    Passed(u128),
    Failed,
    NoClient,
}

/// What is reported of testing the connection through the proxy.
pub fn proxy_check_event(check: Check) -> (r: AppEvent)
    ensures
        match check {
            Check::Passed(ms) => r matches AppEvent::Log(LogLevel::Success, t) && t@
                == "📡 Network Check Passed in "@ + decimal(ms as nat) + "ms"@,
            Check::Failed => r matches AppEvent::Log(LogLevel::Error, t) && t@
                == "❌ Network Test Failed! Check your proxy settings."@,
            Check::NoClient => r matches AppEvent::Log(LogLevel::Error, t) && t@
                == "❌ Failed to build network client!"@,
        },
{
    match check {
        Check::Passed(ms) => {
            let mut t = concat("📡 Network Check Passed in ", &decimal_text(ms));
            push_text(&mut t, "ms");
            AppEvent::Log(LogLevel::Success, t)
        },
        Check::Failed => AppEvent::Log(
            LogLevel::Error,
            "❌ Network Test Failed! Check your proxy settings.".to_string(),
        ),
        Check::NoClient => AppEvent::Log(
            LogLevel::Error,
            "❌ Failed to build network client!".to_string(),
        ),
    }
}

/// What is reported of testing the connection without a proxy, where anything
/// is.
pub fn direct_check_event(check: Check) -> (r: Option<AppEvent>)
    ensures
        match check {
            Check::Passed(ms) => r matches Some(AppEvent::Log(LogLevel::Success, t)) && t@
                == "🌐 Direct Connection Passed! soft98.ir loaded in "@ + decimal(ms as nat)
                + "ms"@,
            Check::Failed => r matches Some(AppEvent::Log(LogLevel::Error, t)) && t@
                == "❌ Direct Connection Failed! Is your network blocked?"@,
            Check::NoClient => r is None,
        },
{
    match check {
        Check::Passed(ms) => {
            let mut t = concat(
                "🌐 Direct Connection Passed! soft98.ir loaded in ",
                &decimal_text(ms),
            );
            push_text(&mut t, "ms");
            Some(AppEvent::Log(LogLevel::Success, t))
        },
        Check::Failed => Some(
            AppEvent::Log(
                LogLevel::Error,
                "❌ Direct Connection Failed! Is your network blocked?".to_string(),
            ),
        ),
        Check::NoClient => None,
    }
}

// ---------------------------------------------------------------------------
// Presets
// ---------------------------------------------------------------------------

/// The address of a preset for the test of delays; number zero and all unknown
/// ones are the user's own.
pub open spec fn ping_preset_url(preset: u8) -> Option<Seq<char>> {
    if preset == 1 {
        Some("https://telegram.org/favicon.ico"@)
    } else if preset == 2 {
        Some("https://telegram.org/"@)
    } else if preset == 3 {
        Some("https://www.gstatic.com/generate_204"@)
    } else if preset == 4 {
        Some("https://1.1.1.1/cdn-cgi/trace"@)
    } else {
        None
    }
}

/// The address of a preset for the test of delays.
pub fn ping_preset(preset: u8) -> (r: Option<&'static str>)
    ensures
        match r {
            Some(u) => ping_preset_url(preset) == Some(u@),
            None => ping_preset_url(preset) is None,
        },
{
    if preset == 1 {
        Some("https://telegram.org/favicon.ico")
    } else if preset == 2 {
        Some("https://telegram.org/")
    } else if preset == 3 {
        Some("https://www.gstatic.com/generate_204")
    } else if preset == 4 {
        Some("https://1.1.1.1/cdn-cgi/trace")
    } else {
        None
    }
}

/// Chooses a preset for the test of delays; the user's own keeps the address.
pub fn choose_ping_preset(c: &mut TesterConfig, preset: u8)
    ensures
        final(c).ping_url_preset == preset,
        final(c).ping_test_url@ == (match ping_preset_url(preset) {
            Some(u) => u,
            None => old(c).ping_test_url@,
        }),
        *final(c) == with_ping(*old(c), preset, final(c).ping_test_url),
{
    let url = match ping_preset(preset) {
        Some(u) => u.to_string(),
        None => c.ping_test_url.clone(),
    };
    set_ping(c, preset, url);
}

/// `c` with another preset and address for the test of delays.
pub open spec fn with_ping(c: TesterConfig, preset: u8, url: String) -> TesterConfig {
    TesterConfig { ping_url_preset: preset, ping_test_url: url, ..c }
}

fn set_ping(c: &mut TesterConfig, preset: u8, url: String)
    ensures
        *final(c) == with_ping(*old(c), preset, url),
{
    c.ping_url_preset = preset;
    c.ping_test_url = url;
}

/// The address of a preset for the test of rates, and whether it can be told
/// how many bytes to send; number zero and all unknown ones are the user's own.
pub open spec fn speed_preset_url(preset: u8) -> Option<(Seq<char>, bool)> {
    if preset == 1 {
        Some(("https://telegram.org/js/telegram-web-app.js"@, false))
    } else if preset == 2 {
        Some(("https://speed.cloudflare.com/__down"@, true))
    } else if preset == 3 {
        Some(("https://speed.hetzner.de/10MB.bin"@, false))
    } else if preset == 4 {
        Some(("https://ipv4.download.thinkbroadband.com/5MB.zip"@, false))
    } else {
        None
    }
}

/// The address of a preset for the test of rates, and whether it can be told
/// how many bytes to send.
pub fn speed_preset(preset: u8) -> (r: Option<(&'static str, bool)>)
    ensures
        match r {
            Some(p) => speed_preset_url(preset) == Some((p.0@, p.1)),
            None => speed_preset_url(preset) is None,
        },
{
    if preset == 1 {
        Some(("https://telegram.org/js/telegram-web-app.js", false))
    } else if preset == 2 {
        Some(("https://speed.cloudflare.com/__down", true))
    } else if preset == 3 {
        Some(("https://speed.hetzner.de/10MB.bin", false))
    } else if preset == 4 {
        Some(("https://ipv4.download.thinkbroadband.com/5MB.zip", false))
    } else {
        None
    }
}

/// Chooses a preset for the test of rates; the user's own keeps the address.
pub fn choose_speed_preset(c: &mut TesterConfig, preset: u8)
    ensures
        final(c).speed_url_preset == preset,
        (final(c).speed_test_url@, final(c).speed_url_supports_bytes_query) == (
        match speed_preset_url(preset) {
            Some(p) => p,
            None => (old(c).speed_test_url@, old(c).speed_url_supports_bytes_query),
        }),
        *final(c) == with_speed(
            *old(c),
            preset,
            final(c).speed_test_url,
            final(c).speed_url_supports_bytes_query,
        ),
{
    let (url, bytes) = match speed_preset(preset) {
        Some(p) => (p.0.to_string(), p.1),
        None => (c.speed_test_url.clone(), c.speed_url_supports_bytes_query),
    };
    set_speed(c, preset, url, bytes);
}

/// `c` with another preset and address for the test of rates.
pub open spec fn with_speed(c: TesterConfig, preset: u8, url: String, bytes: bool) -> TesterConfig {
    TesterConfig {
        speed_url_preset: preset,
        speed_test_url: url,
        speed_url_supports_bytes_query: bytes,
        ..c
    }
}

fn set_speed(c: &mut TesterConfig, preset: u8, url: String, bytes: bool)
    ensures
        *final(c) == with_speed(*old(c), preset, url, bytes),
{
    c.speed_url_preset = preset;
    c.speed_test_url = url;
    c.speed_url_supports_bytes_query = bytes;
}

// ---------------------------------------------------------------------------
// Laws
// ---------------------------------------------------------------------------

/// Events only ever add lines to the log.
pub proof fn events_only_add_to_the_log(v: BoardView, es: Seq<AppEvent>, n: int)
    requires
        0 <= n <= es.len(),
    ensures
        v.log.is_prefix_of(after_events(v, es, n).log),
        after_events(v, es, n).log.len() <= v.log.len() + n,
    decreases n,
{
    if n > 0 {
        events_only_add_to_the_log(v, es, n - 1);
    }
}

/// The engine is stopped once it has said so, whatever events follow.
pub proof fn stopped_engine_stays_stopped(v: BoardView, es: Seq<AppEvent>, i: int, n: int)
    requires
        0 <= i < n <= es.len(),
        es[i] is WorkerStopped,
    ensures
        !after_events(v, es, n).running,
    decreases n,
{
    if n > i + 1 {
        stopped_engine_stays_stopped(v, es, i, n - 1);
    }
}

} // verus!
