//! Running the tester: what it is told, and what its output says.

use vstd::prelude::*;

use crate::config::TesterConfig;
use crate::numbers::{at_least, at_most, decimal, decimal_reads_back, decimal_text, number_in, parse_number};
use crate::outside::{
    match_groups, opt_texts, pattern_groups, text_of_utf8_lossy, utf8_lossy,
};
use crate::scraper::{log_worker, AppEvent, LogLevel};
use crate::text::{
    contains, holds_text, lead, lemma_lead, lemma_tail, lines, lines_of, opt_text, push_text,
    replace, replaced, same, texts, to_chars, trim, trimmed, words, words_of, WHITE,
};

verus! {

// ---------------------------------------------------------------------------
// Arguments
// ---------------------------------------------------------------------------

/// The arguments that every test has at its end.
pub open spec fn common_arguments(c: TesterConfig) -> Seq<Seq<char>> {
    let verbose = if c.xray_verbose_logs {
        seq!["-v"@]
    } else {
        Seq::empty()
    };
    let core = if c.core_type@ != "auto"@ && c.core_type@.len() > 0 {
        seq!["-z"@, c.core_type@]
    } else {
        Seq::empty()
    };
    let address = if c.resolve_real_ip {
        seq!["-r"@]
    } else {
        seq!["--rip=false"@]
    };
    let insecure = if c.allow_insecure {
        seq!["--insecure"@]
    } else {
        Seq::empty()
    };
    verbose + core + address + insecure + words_of(c.extra_xray_args@)
}

/// The time limit of a test in milliseconds: at least a second.
pub open spec fn limit_ms(secs: u64) -> int {
    at_least(secs as int, 1) * 1000
}

/// The arguments of a test of delays.
pub open spec fn ping_arguments(c: TesterConfig, input: Seq<char>, csv: Seq<char>) -> Seq<
    Seq<char>,
> {
    seq![
        "http"@,
        "-f"@,
        input,
        "-t"@,
        decimal(at_least(c.concurrent_tests as int, 1) as nat),
        "-o"@,
        csv,
        "-x"@,
        "csv"@,
        "-u"@,
        c.ping_test_url@,
        "-d"@,
        decimal(c.max_delay_ms as nat),
        "--retries"@,
        decimal(c.retries as nat),
        "--timeout"@,
        decimal(limit_ms(c.timeout_secs) as nat),
    ] + common_arguments(c)
}

/// Whether the address of the test of rates is told how many bytes to send.
pub open spec fn asks_for_bytes(c: TesterConfig) -> bool {
    c.speed_url_supports_bytes_query && c.speed_test_amount_kb > 0
}

/// The address of the test of rates. Where it is told how many bytes to send,
/// the number takes the place of `{bytes}`, or else is added as a query.
pub open spec fn speed_address(c: TesterConfig) -> Seq<char> {
    let url = c.speed_test_url@;
    if asks_for_bytes(c) {
        let bytes = decimal((c.speed_test_amount_kb * 1024) as nat);
        if holds_text(url, "{bytes}"@) {
            replaced(url, "{bytes}"@, bytes)
        } else {
            url + (if holds_text(url, "?"@) {
                "&"@
            } else {
                "?"@
            }) + "bytes="@ + bytes
        }
    } else {
        url
    }
}

/// The arguments of a test of rates.
pub open spec fn speed_arguments(c: TesterConfig, input: Seq<char>, csv: Seq<char>) -> Seq<
    Seq<char>,
> {
    seq![
        "http"@,
        "-f"@,
        input,
        "-t"@,
        decimal(at_least(c.speed_test_batch_size as int, 1) as nat),
        "-o"@,
        csv,
        "-x"@,
        "csv"@,
        "-p"@,
        "-u"@,
        speed_address(c),
        "-a"@,
        decimal(c.speed_test_amount_kb as nat),
        "-d"@,
        decimal(c.max_delay_ms as nat),
        "--retries"@,
        decimal(c.retries as nat),
        "--timeout"@,
        decimal(limit_ms(c.speed_test_timeout_secs) as nat),
    ] + common_arguments(c)
}

/// Appends the words of `extra` to the arguments.
pub fn append_extra_args(args: &mut Vec<String>, extra: &str)
    ensures
        texts(final(args)@) == texts(old(args)@) + words_of(extra@),
{
    let more = words(extra);
    let ghost start = texts(args@);
    let ghost all = texts(more@);
    for i in 0..more.len()
        invariant
            all == texts(more@),
            texts(args@) == start + all.take(i as int),
    {
        let ghost before = args@;
        args.push(more[i].clone());
        assert(texts(args@) =~= texts(before).push(all[i as int]));
        assert(all.take(i + 1) =~= all.take(i as int).push(all[i as int]));
    }
    assert(all.take(more@.len() as int) =~= all);
}

fn push_arg(args: &mut Vec<String>, arg: &str)
    ensures
        texts(final(args)@) == texts(old(args)@).push(arg@),
{
    let ghost before = args@;
    args.push(arg.to_string());
    assert(texts(args@) =~= texts(before).push(arg@));
}

fn push_common(args: &mut Vec<String>, c: &TesterConfig)
    ensures
        texts(final(args)@) == texts(old(args)@) + common_arguments(*c),
{
    let ghost start = texts(args@);
    if c.xray_verbose_logs {
        push_arg(args, "-v");
    }
    if !same(&c.core_type, "auto") && !c.core_type.as_str().is_empty() {
        push_arg(args, "-z");
        push_arg(args, &c.core_type);
    }
    if c.resolve_real_ip {
        push_arg(args, "-r");
    } else {
        push_arg(args, "--rip=false");
    }
    if c.allow_insecure {
        push_arg(args, "--insecure");
    }
    append_extra_args(args, &c.extra_xray_args);
    assert(texts(args@) =~= start + common_arguments(*c));
}

/// The arguments of a test of delays.
pub fn ping_args(c: &TesterConfig, input: &str, csv: &str) -> (r: Vec<String>)
    requires
        limit_ms(c.timeout_secs) <= u64::MAX,
    ensures
        texts(r@) == ping_arguments(*c, input@, csv@),
{
    let tests: usize = if c.concurrent_tests < 1 {
        1
    } else {
        c.concurrent_tests
    };
    let secs: u64 = if c.timeout_secs < 1 {
        1
    } else {
        c.timeout_secs
    };
    let mut args: Vec<String> = Vec::new();
    push_arg(&mut args, "http");
    push_arg(&mut args, "-f");
    push_arg(&mut args, input);
    push_arg(&mut args, "-t");
    push_arg(&mut args, &decimal_text(tests as u128));
    push_arg(&mut args, "-o");
    push_arg(&mut args, csv);
    push_arg(&mut args, "-x");
    push_arg(&mut args, "csv");
    push_arg(&mut args, "-u");
    push_arg(&mut args, &c.ping_test_url);
    push_arg(&mut args, "-d");
    push_arg(&mut args, &decimal_text(c.max_delay_ms as u128));
    push_arg(&mut args, "--retries");
    push_arg(&mut args, &decimal_text(c.retries as u128));
    push_arg(&mut args, "--timeout");
    push_arg(&mut args, &decimal_text((secs * 1000) as u128));
    let ghost head = texts(args@);
    push_common(&mut args, c);
    assert(head + common_arguments(*c) =~= ping_arguments(*c, input@, csv@));
    args
}

/// The address of the test of rates.
pub fn speed_url(c: &TesterConfig) -> (r: String)
    requires
        asks_for_bytes(*c) ==> c.speed_test_amount_kb * 1024 <= u32::MAX,
    ensures
        r@ == speed_address(*c),
{
    if !(c.speed_url_supports_bytes_query && c.speed_test_amount_kb > 0) {
        return c.speed_test_url.clone();
    }
    proof {
        reveal_strlit("{bytes}");
    }
    let bytes = decimal_text((c.speed_test_amount_kb * 1024) as u128);
    if contains(&c.speed_test_url, "{bytes}") {
        replace(&c.speed_test_url, "{bytes}", &bytes)
    } else {
        let mut out = c.speed_test_url.clone();
        if contains(&c.speed_test_url, "?") {
            push_text(&mut out, "&");
        } else {
            push_text(&mut out, "?");
        }
        push_text(&mut out, "bytes=");
        push_text(&mut out, &bytes);
        out
    }
}

/// The arguments of a test of rates.
pub fn speed_args(c: &TesterConfig, input: &str, csv: &str) -> (r: Vec<String>)
    requires
        limit_ms(c.speed_test_timeout_secs) <= u64::MAX,
        asks_for_bytes(*c) ==> c.speed_test_amount_kb * 1024 <= u32::MAX,
    ensures
        texts(r@) == speed_arguments(*c, input@, csv@),
{
    let tests: usize = if c.speed_test_batch_size < 1 {
        1
    } else {
        c.speed_test_batch_size
    };
    let secs: u64 = if c.speed_test_timeout_secs < 1 {
        1
    } else {
        c.speed_test_timeout_secs
    };
    let mut args: Vec<String> = Vec::new();
    push_arg(&mut args, "http");
    push_arg(&mut args, "-f");
    push_arg(&mut args, input);
    push_arg(&mut args, "-t");
    push_arg(&mut args, &decimal_text(tests as u128));
    push_arg(&mut args, "-o");
    push_arg(&mut args, csv);
    push_arg(&mut args, "-x");
    push_arg(&mut args, "csv");
    push_arg(&mut args, "-p");
    push_arg(&mut args, "-u");
    push_arg(&mut args, &speed_url(c));
    push_arg(&mut args, "-a");
    push_arg(&mut args, &decimal_text(c.speed_test_amount_kb as u128));
    push_arg(&mut args, "-d");
    push_arg(&mut args, &decimal_text(c.max_delay_ms as u128));
    push_arg(&mut args, "--retries");
    push_arg(&mut args, &decimal_text(c.retries as u128));
    push_arg(&mut args, "--timeout");
    push_arg(&mut args, &decimal_text((secs * 1000) as u128));
    let ghost head = texts(args@);
    push_common(&mut args, c);
    assert(head + common_arguments(*c) =~= speed_arguments(*c, input@, csv@));
    args
}

/// The name of a file for a while, made at the given milliseconds.
pub fn temp_file_name(millis: u128, file_name: &str) -> (r: String)
    ensures
        r@ == decimal(millis as nat) + "_"@ + file_name@,
{
    let mut out = decimal_text(millis);
    push_text(&mut out, "_");
    push_text(&mut out, file_name);
    out
}

// ---------------------------------------------------------------------------
// Lines
// ---------------------------------------------------------------------------

/// `s` from position `i` on, without escape sequences, carriage returns and
/// byte order marks. An escape sequence ends with an ASCII letter.
pub open spec fn visible_from(s: Seq<char>, i: int, escaped: bool) -> Seq<char>
    decreases s.len() - i,
{
    if i < 0 || i >= s.len() {
        Seq::empty()
    } else if s[i] == '\u{1b}' {
        visible_from(s, i + 1, true)
    } else if escaped {
        visible_from(s, i + 1, !(('a' <= s[i] && s[i] <= 'z') || ('A' <= s[i] && s[i] <= 'Z')))
    } else if s[i] != '\r' && s[i] != '\u{feff}' {
        seq![s[i]] + visible_from(s, i + 1, false)
    } else {
        visible_from(s, i + 1, false)
    }
}

/// What a terminal shows of `s`, without white space at either end.
pub open spec fn visible(s: Seq<char>) -> Seq<char> {
    trimmed(visible_from(s, 0, false))
}

/// What a terminal shows of `s`, without white space at either end.
pub fn strip_ansi(s: &str) -> (r: String)
    ensures
        r@ == visible(s@),
{
    let sc = to_chars(s);
    let mut cleaned = String::new();
    let mut escaped = false;
    for i in 0..sc.len()
        invariant
            sc@ == s@,
            cleaned@ + visible_from(s@, i as int, escaped) == visible_from(s@, 0, false),
    {
        let c = sc[i];
        if c == '\u{1b}' {
            escaped = true;
        } else if escaped {
            if ('a' <= c && c <= 'z') || ('A' <= c && c <= 'Z') {
                escaped = false;
            }
        } else if c != '\r' && c != '\u{feff}' {
            let ghost before = cleaned@;
            cleaned.push(c);
            let ghost rest = visible_from(s@, i + 1, false);
            assert(before.push(c) + rest =~= before + (seq![c] + rest));
        }
    }
    assert(cleaned@ + Seq::<char>::empty() =~= cleaned@);
    trim(&cleaned)
}

/// The bytes of the line that is being read.
pub struct LineReader {
    bytes: Vec<u8>,
}

impl View for LineReader {
    type V = Seq<u8>;

    closed spec fn view(&self) -> Seq<u8> {
        self.bytes@
    }
}

/// The line that the bytes make, where it shows anything.
pub open spec fn line_in(bytes: Seq<u8>) -> Option<Seq<char>> {
    let line = visible(utf8_lossy(bytes));
    if bytes.len() > 0 && line.len() > 0 {
        Some(line)
    } else {
        None
    }
}

impl LineReader {
    /// A reader before the first byte.
    pub fn new() -> (r: Self)
        ensures
            r@ == Seq::<u8>::empty(),
    {
        LineReader { bytes: Vec::new() }
    }

    /// Takes one more byte. A line feed or a carriage return ends the line and
    /// gives what it shows, where it shows anything.
    pub fn feed(&mut self, b: u8) -> (r: Option<String>)
        ensures
            b == 10 || b == 13 ==> final(self)@ == Seq::<u8>::empty() && opt_text(r) == line_in(
                old(self)@,
            ),
            b != 10 && b != 13 ==> final(self)@ == old(self)@.push(b) && r is None,
    {
        if b != 10 && b != 13 {
            self.bytes.push(b);
            return None;
        }
        if self.bytes.len() == 0 {
            assert(self.bytes@ =~= Seq::<u8>::empty());
            return None;
        }
        let line = strip_ansi(&text_of_utf8_lossy(&self.bytes));
        self.bytes = Vec::new();
        if line.as_str().is_empty() {
            None
        } else {
            Some(line)
        }
    }
}

// ---------------------------------------------------------------------------
// Progress
// ---------------------------------------------------------------------------

pub const PERCENT_PATTERN: &'static str = "(\\d{1,3})\\s*%";

pub const COUNT_PATTERN: &'static str = "(\\d+)\\s*/\\s*(\\d+)";

/// The progress that was last reported.
#[derive(Clone, Copy, Debug)]
pub struct Progress {
    pub last_percent: i32,
    pub last_done: usize,
}

/// The number that a group of a match names, at most `max`.
pub open spec fn group_number(groups: Option<Seq<Seq<char>>>, i: int, max: nat) -> Option<nat> {
    match groups {
        Some(g) => if 0 <= i < g.len() {
            number_in(g[i], 10, max)
        } else {
            None
        },
        None => None,
    }
}

/// The percentage to report: one that is a step above the last, or a hundred.
pub open spec fn due_percent(last: int, step: int, groups: Option<Seq<Seq<char>>>) -> Option<nat> {
    match group_number(groups, 1, i32::MAX as nat) {
        Some(p) => if p >= last + at_least(step, 1) || p == 100 {
            Some(p)
        } else {
            None
        },
        None => None,
    }
}

/// The count to report: one that is a twentieth of the total above the last,
/// or the total.
pub open spec fn due_count(last: int, groups: Option<Seq<Seq<char>>>) -> Option<nat> {
    match (
        group_number(groups, 1, usize::MAX as nat),
        group_number(groups, 2, usize::MAX as nat),
    ) {
        (Some(d), Some(t)) => if d >= at_most(
            last + at_least((t / 20) as int, 1),
            usize::MAX as int,
        ) || d == t {
            Some(d)
        } else {
            None
        },
        _ => None,
    }
}

fn read_group(groups: &Option<Vec<String>>, i: usize, max: u128) -> (r: Option<u128>)
    ensures
        match r {
            Some(v) => group_number(opt_texts(*groups), i as int, max as nat) == Some(v as nat),
            None => group_number(opt_texts(*groups), i as int, max as nat) is None,
        },
{
    match groups {
        Some(g) => if i < g.len() {
            parse_number(&g[i], 10, max)
        } else {
            None
        },
        None => None,
    }
}

impl Progress {
    /// Nothing was reported yet.
    pub fn new() -> (r: Self)
        ensures
            r.last_percent == -1,
            r.last_done == 0,
    {
        Progress { last_percent: -1, last_done: 0 }
    }

    /// Whether a line with these matches of a percentage and of a count is to
    /// be reported; keeps what it reports.
    pub fn note(
        &mut self,
        percent: &Option<Vec<String>>,
        count: &Option<Vec<String>>,
        step: u8,
    ) -> (r: bool)
        ensures
            match due_percent(old(self).last_percent as int, step as int, opt_texts(*percent)) {
                Some(p) => final(self).last_percent == p,
                None => final(self).last_percent == old(self).last_percent,
            },
            match due_count(old(self).last_done as int, opt_texts(*count)) {
                Some(d) => final(self).last_done == d,
                None => final(self).last_done == old(self).last_done,
            },
            r == (due_percent(
                old(self).last_percent as int,
                step as int,
                opt_texts(*percent),
            ) is Some || due_count(old(self).last_done as int, opt_texts(*count)) is Some),
    {
        let mut due = false;
        let least: i64 = if step < 1 {
            1
        } else {
            step as i64
        };
        match read_group(percent, 1, i32::MAX as u128) {
            Some(p) => {
                if p as i64 >= self.last_percent as i64 + least || p == 100 {
                    self.last_percent = p as i32;
                    due = true;
                }
            },
            None => {},
        }
        match (
            read_group(count, 1, usize::MAX as u128),
            read_group(count, 2, usize::MAX as u128),
        ) {
            (Some(d), Some(t)) => {
                let part: usize = t as usize / 20;
                let more: usize = if part < 1 {
                    1
                } else {
                    part
                };
                if d as usize >= self.last_done.saturating_add(more) || d == t {
                    self.last_done = d as usize;
                    due = true;
                }
            },
            _ => {},
        }
        due
    }
}

/// A line that only tells how far the test has come.
pub open spec fn is_progress(line: Seq<char>) -> bool {
    holds_text(line, "Testing configs"@) && holds_text(line, "%"@)
}

/// What a line of the output is reported as. A line that tells how far the
/// test has come is reported only when that has changed enough.
pub fn stdout_event(progress: &mut Progress, line: String, step: u8) -> (r: Option<AppEvent>)
    ensures
        ({
            let p = due_percent(
                old(progress).last_percent as int,
                step as int,
                pattern_groups(PERCENT_PATTERN@, line@),
            );
            let d = due_count(
                old(progress).last_done as int,
                pattern_groups(COUNT_PATTERN@, line@),
            );
            if is_progress(line@) {
                &&& final(progress).last_percent == (match p {
                    Some(n) => n as int,
                    None => old(progress).last_percent as int,
                })
                &&& final(progress).last_done == (match d {
                    Some(n) => n as int,
                    None => old(progress).last_done as int,
                })
                &&& r == (if p is Some || d is Some {
                    Some(AppEvent::Log(LogLevel::Debug, line))
                } else {
                    None
                })
            } else {
                *final(progress) == *old(progress) && r == Some(
                    AppEvent::Log(LogLevel::Debug, line),
                )
            }
        }),
{
    if contains(&line, "Testing configs") && contains(&line, "%") {
        let percent = match_groups(PERCENT_PATTERN, &line);
        let count = match_groups(COUNT_PATTERN, &line);
        if !progress.note(&percent, &count, step) {
            return None;
        }
    }
    Some(log_worker(LogLevel::Debug, line))
}

/// What a line of the error output is reported as, where it is reported.
pub fn stderr_event(line: String) -> (r: Option<AppEvent>)
    ensures
        r == (if line@.len() > 0 && !holds_text(line@, "Testing configs"@) {
            Some(AppEvent::Log(LogLevel::Warning, line))
        } else {
            None
        }),
{
    if line.as_str().is_empty() || contains(&line, "Testing configs") {
        None
    } else {
        Some(log_worker(LogLevel::Warning, line))
    }
}

// ---------------------------------------------------------------------------
// Found links
// ---------------------------------------------------------------------------

/// How many results a table holds so far: its lines without the header.
pub open spec fn found_in(content: Seq<char>) -> nat {
    if lines_of(content).len() > 0 {
        (lines_of(content).len() - 1) as nat
    } else {
        0
    }
}

/// How many results a table holds so far.
pub fn count_found(content: &str) -> (r: usize)
    ensures
        r == found_in(content@),
{
    let n: usize = lines(content).len();
    if n > 0 {
        n - 1
    } else {
        0
    }
}

/// The message that there are more results than the last time.
pub open spec fn found_message(more: nat, total: nat) -> Seq<char> {
    "🎉 Found "@ + decimal(more) + " new working config(s)! (Total: "@ + decimal(total) + ")"@
}

/// What there is to report when a table that held `last` results holds `found`.
pub fn found_event(found: usize, last: usize) -> (r: Option<AppEvent>)
    ensures
        found > last ==> (r matches Some(AppEvent::Log(LogLevel::Success, text)) && text@
            == found_message((found - last) as nat, found as nat)),
        found <= last ==> r is None,
{
    if found <= last {
        return None;
    }
    let mut text = "🎉 Found ".to_string();
    push_text(&mut text, &decimal_text((found - last) as u128));
    push_text(&mut text, " new working config(s)! (Total: ");
    push_text(&mut text, &decimal_text(found as u128));
    push_text(&mut text, ")");
    Some(log_worker(LogLevel::Success, text))
}

/// Whether new results are to be announced by a sound or a notice, when the
/// last announcement was `secs` seconds ago.
pub fn alert_due(beep: bool, notify: bool, secs: u64) -> (r: bool)
    ensures
        r == ((beep || notify) && secs >= 3),
{
    (beep || notify) && secs >= 3
}

// ---------------------------------------------------------------------------
// Laws
// ---------------------------------------------------------------------------

/// `c` is no escape character, no carriage return and no byte order mark.
pub open spec fn is_shown(c: char) -> bool {
    c != '\u{1b}' && c != '\r' && c != '\u{feff}'
}

/// What a terminal shows holds no escape character, no carriage return and no
/// byte order mark.
pub proof fn visible_holds_no_controls(s: Seq<char>, k: int)
    requires
        0 <= k < visible(s).len(),
    ensures
        is_shown(visible(s)[k]),
{
    let v = visible_from(s, 0, false);
    lemma_visible(s, 0, false);
    lemma_lead(v, WHITE@, 0);
    lemma_tail(v, WHITE@, lead(v, WHITE@, 0), v.len() as int);
    assert(visible(s)[k] == v[lead(v, WHITE@, 0) + k]);
}

proof fn lemma_visible(s: Seq<char>, i: int, escaped: bool)
    ensures
        forall|k: int|
            0 <= k < visible_from(s, i, escaped).len() ==> is_shown(
                #[trigger] visible_from(s, i, escaped)[k],
            ),
    decreases s.len() - i,
{
    if 0 <= i < s.len() {
        let letter = ('a' <= s[i] && s[i] <= 'z') || ('A' <= s[i] && s[i] <= 'Z');
        let next = s[i] == '\u{1b}' || (escaped && !letter);
        lemma_visible(s, i + 1, next);
        let rest = visible_from(s, i + 1, next);
        let all = visible_from(s, i, escaped);
        if !escaped && is_shown(s[i]) {
            assert(all == seq![s[i]] + rest);
            assert forall|k: int| 0 <= k < all.len() implies is_shown(#[trigger] all[k]) by {
                if k > 0 {
                    assert(all[k] == rest[k - 1]);
                }
            }
        } else {
            assert(all == rest);
        }
    }
}

/// A text without escape characters, carriage returns and byte order marks is
/// shown as it is.
pub proof fn plain_text_stays_visible(s: Seq<char>)
    requires
        forall|k: int| 0 <= k < s.len() ==> is_shown(#[trigger] s[k]),
    ensures
        visible(s) == trimmed(s),
{
    lemma_plain_visible(s, 0);
    assert(s.skip(0) =~= s);
}

proof fn lemma_plain_visible(s: Seq<char>, i: int)
    requires
        0 <= i <= s.len(),
        forall|k: int| 0 <= k < s.len() ==> is_shown(#[trigger] s[k]),
    ensures
        visible_from(s, i, false) == s.skip(i),
    decreases s.len() - i,
{
    if i < s.len() {
        lemma_plain_visible(s, i + 1);
        assert(s.skip(i) =~= seq![s[i]] + s.skip(i + 1));
    } else {
        assert(s.skip(i) =~= Seq::<char>::empty());
    }
}

/// A test of delays is told the links, where the results go, and the limits of the
/// settings: how many tests at once, at least one, the address, the longest delay,
/// the repetitions and the time limit in milliseconds, at least a second.
pub proof fn delay_tests_follow_the_settings(c: TesterConfig, input: Seq<char>, csv: Seq<char>)
    ensures
        ({
            let a = ping_arguments(c, input, csv);
            &&& a.len() >= 17
            &&& a[0] == "http"@
            &&& a[1] == "-f"@ && a[2] == input
            &&& a[3] == "-t"@ && (c.concurrent_tests >= 1 ==> a[4] == decimal(
                c.concurrent_tests as nat,
            )) && (c.concurrent_tests == 0 ==> a[4] == decimal(1))
            &&& a[5] == "-o"@ && a[6] == csv && a[7] == "-x"@ && a[8] == "csv"@
            &&& a[9] == "-u"@ && a[10] == c.ping_test_url@
            &&& a[11] == "-d"@ && a[12] == decimal(c.max_delay_ms as nat)
            &&& a[13] == "--retries"@ && a[14] == decimal(c.retries as nat)
            &&& a[15] == "--timeout"@ && (c.timeout_secs >= 1 ==> a[16] == decimal(
                (c.timeout_secs * 1000) as nat,
            )) && (c.timeout_secs == 0 ==> a[16] == decimal(1000))
        }),
{
}

/// A test of rates is told the links, where the results go, how much to fetch, and
/// the limits of the settings.
pub proof fn rate_tests_follow_the_settings(c: TesterConfig, input: Seq<char>, csv: Seq<char>)
    ensures
        ({
            let a = speed_arguments(c, input, csv);
            &&& a.len() >= 20
            &&& a[0] == "http"@
            &&& a[1] == "-f"@ && a[2] == input
            &&& a[3] == "-t"@ && (c.speed_test_batch_size >= 1 ==> a[4] == decimal(
                c.speed_test_batch_size as nat,
            )) && (c.speed_test_batch_size == 0 ==> a[4] == decimal(1))
            &&& a[5] == "-o"@ && a[6] == csv && a[7] == "-x"@ && a[8] == "csv"@ && a[9] == "-p"@
            &&& a[10] == "-u"@ && a[11] == speed_address(c)
            &&& a[12] == "-a"@ && a[13] == decimal(c.speed_test_amount_kb as nat)
            &&& a[14] == "-d"@ && a[15] == decimal(c.max_delay_ms as nat)
            &&& a[16] == "--retries"@ && a[17] == decimal(c.retries as nat)
            &&& a[18] == "--timeout"@ && (c.speed_test_timeout_secs >= 1 ==> a[19] == decimal(
                (c.speed_test_timeout_secs * 1000) as nat,
            )) && (c.speed_test_timeout_secs == 0 ==> a[19] == decimal(1000))
        }),
{
}

/// The address of a test of rates stays where no number of bytes is asked for, and
/// else carries 1024 times the kilobytes, in the place kept for them or as a query.
pub proof fn rate_addresses_ask_for_bytes(c: TesterConfig)
    ensures
        !c.speed_url_supports_bytes_query || c.speed_test_amount_kb == 0 ==> speed_address(c)
            == c.speed_test_url@,
        c.speed_url_supports_bytes_query && c.speed_test_amount_kb > 0 && !holds_text(
            c.speed_test_url@,
            "{bytes}"@,
        ) && holds_text(c.speed_test_url@, "?"@) ==> speed_address(c) == c.speed_test_url@ + "&"@
            + "bytes="@ + decimal((c.speed_test_amount_kb * 1024) as nat),
        c.speed_url_supports_bytes_query && c.speed_test_amount_kb > 0 && !holds_text(
            c.speed_test_url@,
            "{bytes}"@,
        ) && !holds_text(c.speed_test_url@, "?"@) ==> speed_address(c) == c.speed_test_url@ + "?"@
            + "bytes="@ + decimal((c.speed_test_amount_kb * 1024) as nat),
{
}

/// Progress is reported when it has grown by the step and at the end, and never for
/// less.
pub proof fn progress_is_reported_by_steps(last: int, step: int, p: nat, whole: Seq<char>)
    requires
        p <= 1000,
        step >= 1,
    ensures
        ({
            let g = Some(seq![whole, decimal(p)]);
            &&& p >= last + step ==> due_percent(last, step, g) == Some(p)
            &&& p == 100 ==> due_percent(last, step, g) == Some(p)
            &&& p < last + step && p != 100 ==> due_percent(last, step, g) is None
        }),
{
    decimal_reads_back(p, i32::MAX as nat);
}

} // verus!
