//! Collecting links from the public pages of channels.

use vstd::prelude::*;

use crate::collections::{
    ascending, lemma_take_one_more, listing, listing_holds_the_members, listing_of_ascending,
    TextMap, TextSet,
};
use crate::config::{
    is_within, recent, within, AppConfig, ChannelMemory, ProtocolRule, ProxyType, SentHistory,
    Timestamp,
};
use crate::numbers::{at_least, at_most, decimal, decimal_text, number_in, parse_number};
use crate::outside::{
    lowercase, match_all, match_captures, match_groups, opt_texts, pattern_captures,
    pattern_groups, pattern_matches, read_rfc3339, rfc3339_read, to_lowercase,
};
use crate::storage::is_clean;
use crate::store::{
    add_link, add_links, contents, holds_link, links_under, set_links, with_link, with_links,
};
use crate::text::{
    after_prefix, bare_text_stays, begins, concat, contains, find_from, holds_text, is_line, join,
    joined, joined_lines_come_back, lead, lemma_find_from, lines, lines_follow_lines, lines_of, occurs_at,
    opt_text, pieces, push_text, replace, replaced, split, starts_with, strip_prefix, texts, trim,
    trim_end_of, trim_of, trim_start_of, trimmed, trimmed_end, trimmed_ends_are_bare, trimmed_of,
    trimmed_start, WHITE,
};

verus! {

// ---------------------------------------------------------------------------
// Events
// ---------------------------------------------------------------------------

/// How much a message matters.
#[derive(Clone, Copy, Debug, PartialEq, Eq, Structural)]
pub enum LogLevel {
    Debug,
    Info,
    Success,
    Warning,
    Error,
}

/// What the engine tells the one who watches it.
#[derive(Clone, Debug)]
pub enum AppEvent {
    Log(LogLevel, String),
    Stats { total: usize, by_protocol: TextMap<usize> },
    WorkerStopped,
}

/// The event that carries a message of the engine.
pub fn log_worker(level: LogLevel, text: String) -> (r: AppEvent)
    ensures
        r == AppEvent::Log(level, text),
{
    AppEvent::Log(level, text)
}

/// The event carries the message `text`, which matters as much as `level` says.
pub open spec fn says(e: AppEvent, level: LogLevel, text: Seq<char>) -> bool {
    e matches AppEvent::Log(l, t) && l == level && t@ == text
}

// ---------------------------------------------------------------------------
// Network
// ---------------------------------------------------------------------------

/// How a client reaches the network: straight, as the system is set up, or
/// through the proxy at an address.
#[derive(Debug)]
pub enum ClientProxy {
    Straight,
    System,
    Through(String),
}

/// The scheme of a proxy. With remote name resolution the proxy is handed
/// names, else addresses.
pub open spec fn proxy_scheme(t: ProxyType, remote_dns: bool) -> Seq<char> {
    if t == ProxyType::Socks5 && remote_dns {
        "socks5h"@
    } else if t == ProxyType::Socks5 {
        "socks5"@
    } else {
        "http"@
    }
}

/// The host of the proxy, this machine where none is set.
pub open spec fn proxy_host(host: Seq<char>) -> Seq<char> {
    if trimmed(host).len() == 0 {
        "127.0.0.1"@
    } else {
        trimmed(host)
    }
}

/// The address of the proxy.
pub open spec fn proxy_address(c: AppConfig) -> Seq<char> {
    proxy_scheme(c.proxy_type, c.remote_dns) + "://"@ + proxy_host(c.proxy_host@) + ":"@ + decimal(
        c.proxy_port as nat,
    )
}

/// How a client is to reach the network.
pub fn client_proxy(config: &AppConfig) -> (r: ClientProxy)
    ensures
        match config.proxy_type {
            ProxyType::Direct => r is Straight,
            ProxyType::System => r is System,
            ProxyType::Http | ProxyType::Socks5 => r matches ClientProxy::Through(a) && a@
                == proxy_address(*config),
        },
{
    match config.proxy_type {
        ProxyType::Direct => ClientProxy::Straight,
        ProxyType::System => ClientProxy::System,
        ProxyType::Http | ProxyType::Socks5 => {
            let socks = match config.proxy_type {
                ProxyType::Socks5 => true,
                _ => false,
            };
            let mut out = if socks && config.remote_dns {
                "socks5h".to_string()
            } else if socks {
                "socks5".to_string()
            } else {
                "http".to_string()
            };
            push_text(&mut out, "://");
            let host = trim(&config.proxy_host);
            if host.as_str().is_empty() {
                push_text(&mut out, "127.0.0.1");
            } else {
                push_text(&mut out, &host);
            }
            push_text(&mut out, ":");
            push_text(&mut out, &decimal_text(config.proxy_port as u128));
            ClientProxy::Through(out)
        },
    }
}

// ---------------------------------------------------------------------------
// Channels
// ---------------------------------------------------------------------------

pub const SLASH: [char; 1] = ['/'];

pub const AT_SIGN: [char; 1] = ['@'];

/// `s`, where it is not empty.
pub open spec fn nonempty(s: Seq<char>) -> Option<Seq<char>> {
    if s.len() > 0 {
        Some(s)
    } else {
        None
    }
}

/// The channel that a trimmed line names: what follows an at sign, or what
/// follows the host of an address up to its query, or else the line.
pub open spec fn channel_named(l: Seq<char>) -> Seq<char> {
    match after_prefix(l, "@"@) {
        Some(rest) => rest,
        None => if holds_text(l, "t.me/"@) {
            let tail = pieces(l, "t.me/"@, 0)[1];
            trimmed_of(pieces(tail, "?"@, 0)[0], SLASH@)
        } else {
            l
        },
    }
}

/// The channel that a line names; empty lines and comments name none.
pub open spec fn channel_in(line: Seq<char>) -> Option<Seq<char>> {
    let l = trimmed(line);
    if l.len() == 0 || begins(l, "#"@) {
        None
    } else {
        nonempty(channel_named(l))
    }
}

/// The channel that a line names.
pub open spec fn channel_reader() -> spec_fn(Seq<char>) -> Option<Seq<char>> {
    |line: Seq<char>| channel_in(line)
}

/// The channels that a text names, a line each.
pub open spec fn channels_in(raw: Seq<char>) -> Seq<Seq<char>> {
    lines_of(raw).filter_map(channel_reader())
}

proof fn lemma_found_splits(s: Seq<char>, sep: Seq<char>)
    requires
        sep.len() > 0,
    ensures
        pieces(s, sep, 0).len() >= 1,
        holds_text(s, sep) ==> pieces(s, sep, 0).len() >= 2,
{
    lemma_find_from(s, sep, 0);
    match find_from(s, sep, 0) {
        Some(i) => {
            let rest = pieces(s, sep, i + sep.len());
            assert(rest.len() >= 1);
        },
        None => {
            if holds_text(s, sep) {
                let i = choose|i: int| occurs_at(s, sep, i);
                assert(occurs_at(s, sep, i));
            }
        },
    }
}

fn read_channel(line: &str) -> (r: Option<String>)
    ensures
        opt_text(r) == channel_in(line@),
{
    let l = trim(line);
    if l.as_str().is_empty() || starts_with(&l, "#") {
        return None;
    }
    let name = match strip_prefix(&l, "@") {
        Some(rest) => rest,
        None => {
            if contains(&l, "t.me/") {
                proof {
                    reveal_strlit("t.me/");
                    reveal_strlit("?");
                    lemma_found_splits(l@, "t.me/"@);
                }
                let parts = split(&l, "t.me/");
                assert(texts(parts@).len() == parts@.len());
                proof {
                    lemma_found_splits(parts@[1]@, "?"@);
                }
                let head = split(&parts[1], "?");
                assert(texts(head@).len() == head@.len());
                assert(texts(parts@)[1] == parts@[1]@);
                assert(texts(head@)[0] == head@[0]@);
                trim_of(&head[0], &SLASH)
            } else {
                l
            }
        },
    };
    if name.as_str().is_empty() {
        None
    } else {
        Some(name)
    }
}

/// The channels that a text names, a line each.
pub fn parse_channels(raw: &str) -> (r: Vec<String>)
    ensures
        texts(r@) == channels_in(raw@),
{
    let all = lines(raw);
    let ghost rows = lines_of(raw@);
    let ghost f = channel_reader();
    let mut out: Vec<String> = Vec::new();
    assert(texts(out@) =~= rows.take(0).filter_map(f));
    assert(texts(all@).len() == all@.len());
    for i in 0..all.len()
        invariant
            texts(all@) == rows,
            f == channel_reader(),
            texts(out@) == rows.take(i as int).filter_map(f),
    {
        let ghost before = out@;
        proof {
            assert(rows.take(i + 1).drop_last() =~= rows.take(i as int));
            assert(rows.take(i + 1).last() == rows[i as int]);
            assert(rows[i as int] == all@[i as int]@);
        }
        match read_channel(&all[i]) {
            Some(c) => {
                out.push(c);
                assert(texts(out@) =~= texts(before) + seq![c@]);
            },
            None => {},
        }
    }
    assert(rows.take(rows.len() as int) =~= rows);
    out
}

/// How many channels are read at once: as many as the settings ask for, but no
/// more than there are, and at least one.
pub fn thread_count(concurrent: usize, channels: usize) -> (r: usize)
    ensures
        r == at_most(at_least(concurrent as int, 1), at_least(channels as int, 1)),
{
    let wanted: usize = if concurrent < 1 {
        1
    } else {
        concurrent
    };
    let most: usize = if channels < 1 {
        1
    } else {
        channels
    };
    if wanted < most {
        wanted
    } else {
        most
    }
}

// ---------------------------------------------------------------------------
// Limits
// ---------------------------------------------------------------------------

/// The links of a protocol that its rule leaves: the first ones in order, as
/// many as it allows.
pub open spec fn limited_links(
    rules: Map<Seq<char>, ProtocolRule>,
    p: Seq<char>,
    links: Set<Seq<char>>,
) -> Set<Seq<char>> {
    if rules.contains_key(p) && rules[p].max_count > 0 && listing(links).len() > rules[p].max_count {
        listing(links).take(rules[p].max_count as int).to_set()
    } else {
        links
    }
}

/// The links that the rules leave.
pub open spec fn limited(
    data: Map<Seq<char>, Set<Seq<char>>>,
    rules: Map<Seq<char>, ProtocolRule>,
) -> Map<Seq<char>, Set<Seq<char>>> {
    Map::new(
        |p: Seq<char>| data.contains_key(p),
        |p: Seq<char>| limited_links(rules, p, data[p]),
    )
}

/// Leaves of each protocol as many links as its rule allows.
pub fn apply_protocol_limits(store: &mut TextMap<TextSet>, rules: &TextMap<ProtocolRule>)
    ensures
        contents(final(store)@) == limited(contents(old(store)@), rules@),
{
    let ghost data = contents(store@);
    let ghost keys = listing(store@.dom());
    let n: usize = store.len();
    for i in 0..n
        invariant
            keys == listing(store@.dom()),
            n == keys.len(),
            keys.to_set() == store@.dom(),
            keys.no_duplicates(),
            store@.dom() == data.dom(),
            forall|k: int|
                0 <= k < n ==> #[trigger] contents(store@)[keys[k]] == (if k < i {
                    limited_links(rules@, keys[k], data[keys[k]])
                } else {
                    data[keys[k]]
                }),
    {
        let ghost before = store@;
        let ghost k = keys[i as int];
        let links = store.value(i);
        assert(contents(store@)[k] == links@);
        let most: usize = match rules.get(store.key(i)) {
            Some(rule) => rule.max_count,
            None => 0,
        };
        if most > 0 && links.len() > most {
            let first = links.first(most);
            store.set_value(i, first);
            assert(contents(store@) =~= contents(before).insert(k, first@));
        }
    }
    proof {
        assert forall|p: Seq<char>| #[trigger] data.contains_key(p) implies contents(store@)[p]
            == limited(data, rules@)[p] by {
            assert(keys.to_set().contains(p));
            let k = keys.index_of(p);
            assert(contents(store@)[keys[k]] == limited_links(rules@, keys[k], data[keys[k]]));
        }
        assert(contents(store@) =~= limited(data, rules@));
    }
}

// ---------------------------------------------------------------------------
// Pages
// ---------------------------------------------------------------------------

/// A link of any of the protocols.
pub const LINK_PATTERN: &'static str =
    r"(?i)(vmess|vless|trojan|ss|ssr|tuic|hysteria|hysteria2|hy2|juicity|snell|anytls|ssh|wireguard|wg|warp|socks|socks4|socks5|tg|dns|nm-dns|nm-vless|slipnet-enc|slipnet|slipstream|dnstt)://[a-zA-Z0-9\-\._~:/\?#\[\]@!\$&'\(\)\*\+,%;=]+";

/// The instant of a post.
pub const DATE_PATTERN: &'static str = "<time datetime=\"([^\"]+)\"";

/// The number of a post.
pub const POST_PATTERN: &'static str = "data-post=\"[^/]+/(\\d+)\"";

/// What stands before each post of a page.
pub const POST_MARK: &'static str = "tgme_widget_message ";

/// What a link in running text does not end with.
pub const LINK_TAIL: [char; 13] = [
    '(', ')', '[', ']', ' ', '!', '.', ',', ';', '\'', '"', '<', '>',
];

/// The name under which a channel is remembered.
pub open spec fn memory_name(channel: Seq<char>) -> Seq<char> {
    lowercase(trimmed_start(channel, AT_SIGN@))
}

/// The address of a page of a channel: the newest posts, or those before one.
pub open spec fn page_address(channel: Seq<char>, before: Option<Seq<char>>) -> Seq<char> {
    let first = "https://t.me/s/"@ + channel;
    match before {
        Some(id) => first + ("?before="@ + id),
        None => first,
    }
}

/// A page with the characters that its markup spells out.
pub open spec fn unescaped(raw: Seq<char>) -> Seq<char> {
    replaced(
        replaced(replaced(replaced(raw, "&amp;"@, "&"@), "&lt;"@, "<"@), "&gt;"@, ">"@),
        "&quot;"@,
        "\""@,
    )
}

/// A page with the characters that its markup spells out.
pub fn decode_entities(raw: &str) -> (r: String)
    ensures
        r@ == unescaped(raw@),
{
    proof {
        reveal_strlit("&amp;");
        reveal_strlit("&lt;");
        reveal_strlit("&gt;");
        reveal_strlit("&quot;");
    }
    let a = replace(raw, "&amp;", "&");
    let b = replace(&a, "&lt;", "<");
    let c = replace(&b, "&gt;", ">");
    replace(&c, "&quot;", "\"")
}

/// What a post holds: its number, zero where it has none, its instant, and
/// the links in it.
#[derive(Debug)]
pub struct Post {
    pub id: u64,
    pub date: Option<Timestamp>,
    pub links: Vec<String>,
}

/// What a post holds, as plain values.
pub struct PostView {
    pub id: u64,
    pub date: Option<Timestamp>,
    pub links: Seq<Seq<char>>,
}

impl View for Post {
    type V = PostView;

    open spec fn view(&self) -> PostView {
        PostView { id: self.id, date: self.date, links: texts(self.links@) }
    }
}

/// What a list of posts holds.
pub open spec fn posts(v: Seq<Post>) -> Seq<PostView> {
    Seq::new(v.len(), |i: int| v[i]@)
}

/// The number in the group of a match of a post's number; zero where there is
/// none.
pub open spec fn post_number(groups: Option<Seq<Seq<char>>>) -> u64 {
    match groups {
        Some(g) => if g.len() > 1 {
            match number_in(g[1], 10, u64::MAX as nat) {
                Some(n) => n as u64,
                None => 0,
            }
        } else {
            0
        },
        None => 0,
    }
}

/// The instant in the group of a match of a post's instant.
pub open spec fn post_date(groups: Option<Seq<Seq<char>>>) -> Option<Timestamp> {
    match groups {
        Some(g) => if g.len() > 1 {
            match rfc3339_read(g[1]) {
                Some(t) => Some(Timestamp { secs: t.0, nanos: t.1 }),
                None => None,
            }
        } else {
            None
        },
        None => None,
    }
}

/// What the part of a page that belongs to a post holds.
pub open spec fn post_in(block: Seq<char>) -> PostView {
    PostView {
        id: post_number(pattern_groups(POST_PATTERN@, block)),
        date: post_date(pattern_groups(DATE_PATTERN@, block)),
        links: pattern_matches(LINK_PATTERN@, block),
    }
}

/// The posts of a page.
pub open spec fn posts_in(html: Seq<char>) -> Seq<PostView> {
    let blocks = pieces(html, POST_MARK@, 0);
    Seq::new(blocks.len(), |i: int| post_in(blocks[i]))
}

/// The number before which the next page ends: the last one on this page.
pub open spec fn next_before(html: Seq<char>) -> Option<Seq<char>> {
    let ids = pattern_captures(POST_PATTERN@, html);
    if ids.len() > 0 {
        Some(ids.last())
    } else {
        None
    }
}

fn read_number(groups: &Option<Vec<String>>) -> (r: u64)
    ensures
        r == post_number(opt_texts(*groups)),
{
    match groups {
        Some(g) => {
            if g.len() > 1 {
                match parse_number(&g[1], 10, u64::MAX as u128) {
                    Some(n) => n as u64,
                    None => 0,
                }
            } else {
                0
            }
        },
        None => 0,
    }
}

fn read_date(groups: &Option<Vec<String>>) -> (r: Option<Timestamp>)
    ensures
        r == post_date(opt_texts(*groups)),
{
    match groups {
        Some(g) => {
            if g.len() > 1 {
                match read_rfc3339(&g[1]) {
                    Some(t) => Some(Timestamp { secs: t.0, nanos: t.1 }),
                    None => None,
                }
            } else {
                None
            }
        },
        None => None,
    }
}

fn read_post(block: &str) -> (r: Post)
    ensures
        r@ == post_in(block@),
{
    let id = read_number(&match_groups(POST_PATTERN, block));
    let date = read_date(&match_groups(DATE_PATTERN, block));
    Post { id, date, links: match_all(LINK_PATTERN, block) }
}

fn read_posts(html: &str) -> (r: Vec<Post>)
    ensures
        posts(r@) == posts_in(html@),
{
    proof {
        reveal_strlit("tgme_widget_message ");
    }
    let blocks = split(html, POST_MARK);
    let ghost all = posts_in(html@);
    assert(texts(blocks@).len() == blocks@.len());
    let mut out: Vec<Post> = Vec::new();
    for i in 0..blocks.len()
        invariant
            texts(blocks@) == pieces(html@, POST_MARK@, 0),
            all == posts_in(html@),
            blocks@.len() == all.len(),
            posts(out@) == all.take(i as int),
    {
        let ghost before = out@;
        assert(texts(blocks@)[i as int] == blocks@[i as int]@);
        out.push(read_post(&blocks[i]));
        assert(posts(out@) =~= posts(before).push(all[i as int]));
        assert(all.take(i + 1) =~= all.take(i as int).push(all[i as int]));
    }
    assert(all.take(all.len() as int) =~= all);
    out
}

// ---------------------------------------------------------------------------
// The reading of a channel
// ---------------------------------------------------------------------------

/// The reading of a channel: the highest post known from before, the highest
/// seen now, where the next page begins, how many links were found, which, and
/// whether a known post was met.
pub struct ChannelScan {
    pub channel: String,
    pub known: Option<u64>,
    pub pages: usize,
    pub highest: u64,
    pub before: Option<String>,
    pub found: usize,
    pub gathered: TextMap<TextSet>,
    pub hit_known: bool,
}

/// The reading of a channel, as plain values.
pub struct ScanView {
    pub channel: Seq<char>,
    pub known: Option<u64>,
    pub pages: usize,
    pub highest: u64,
    pub before: Option<Seq<char>>,
    pub found: usize,
    pub gathered: Map<Seq<char>, Set<Seq<char>>>,
    pub hit_known: bool,
}

impl View for ChannelScan {
    type V = ScanView;

    open spec fn view(&self) -> ScanView {
        ScanView {
            channel: self.channel@,
            known: self.known,
            pages: self.pages,
            highest: self.highest,
            before: opt_text(self.before),
            found: self.found,
            gathered: contents(self.gathered@),
            hit_known: self.hit_known,
        }
    }
}

/// A link without what follows it in running text.
pub open spec fn clean_link(m: Seq<char>) -> Seq<char> {
    trimmed_end(m, LINK_TAIL@)
}

/// The protocol of a link: what stands before its address, in lower case.
pub open spec fn protocol_of(link: Seq<char>) -> Seq<char> {
    lowercase(pieces(link, "://"@, 0)[0])
}

/// `m` with the first `n` of the links under their protocols.
pub open spec fn with_found(
    m: Map<Seq<char>, Set<Seq<char>>>,
    links: Seq<Seq<char>>,
    n: int,
) -> Map<Seq<char>, Set<Seq<char>>>
    decreases n,
{
    if n <= 0 {
        m
    } else {
        let l = clean_link(links[n - 1]);
        with_link(with_found(m, links, n - 1), protocol_of(l), l)
    }
}

/// A post that was read before.
pub open spec fn is_known(known: Option<u64>, id: u64) -> bool {
    match known {
        Some(k) => 0 < id <= k,
        None => false,
    }
}

/// A post that is new enough: not older than `days` days, or without an
/// instant.
pub open spec fn is_recent(date: Option<Timestamp>, now: Timestamp, days: int) -> bool {
    match date {
        Some(t) => within(t, now, days),
        None => true,
    }
}

/// What a post adds to the reading. A known post adds nothing but the fact
/// that it was met; the links of one that is too old do not count.
pub open spec fn with_post(v: ScanView, p: PostView, now: Timestamp, days: int) -> ScanView {
    let highest = if p.id > v.highest {
        p.id
    } else {
        v.highest
    };
    if is_known(v.known, p.id) {
        ScanView { highest, hit_known: true, ..v }
    } else if is_recent(p.date, now, days) {
        ScanView {
            highest,
            found: at_most(v.found + p.links.len(), usize::MAX as int) as usize,
            gathered: with_found(v.gathered, p.links, p.links.len() as int),
            ..v
        }
    } else {
        ScanView { highest, ..v }
    }
}

/// What the first `n` posts add to the reading.
pub open spec fn with_posts(v: ScanView, ps: Seq<PostView>, now: Timestamp, days: int, n: int) -> ScanView
    decreases n,
{
    if n <= 0 {
        v
    } else {
        with_post(with_posts(v, ps, now, days, n - 1), ps[n - 1], now, days)
    }
}

/// What a page adds to the reading, and where the next one begins.
pub open spec fn with_page(
    v: ScanView,
    ps: Seq<PostView>,
    next: Option<Seq<char>>,
    now: Timestamp,
    days: int,
) -> ScanView {
    ScanView {
        before: next,
        pages: at_most(v.pages + 1, usize::MAX as int) as usize,
        ..with_posts(v, ps, now, days, ps.len() as int)
    }
}

/// Whether another page is read after one: no known post was met, the page
/// held links, and there is one before it.
pub open spec fn goes_on(before: ScanView, after: ScanView) -> bool {
    !after.hit_known && after.before is Some && after.found > before.found
}

/// What came of asking for a page: its text, a page whose text could not be
/// read, an answer that is no page, or no answer.
pub enum PageReply {
    Page(String),
    Unreadable,
    Refused,
    Failed,
}

/// The reading when a page was passed over.
pub open spec fn passed_over(v: ScanView) -> ScanView {
    ScanView { pages: at_most(v.pages + 1, usize::MAX as int) as usize, ..v }
}

impl ChannelScan {
    /// The reading of a channel before its first page.
    pub fn begin(channel: &str, memory: &ChannelMemory) -> (r: Self)
        ensures
            r@ == (ScanView {
                channel: channel@,
                known: if memory.last_seen_ids@.contains_key(memory_name(channel@)) {
                    Some(memory.last_seen_ids@[memory_name(channel@)])
                } else {
                    None
                },
                pages: 0,
                highest: 0,
                before: None,
                found: 0,
                gathered: Map::empty(),
                hit_known: false,
            }),
    {
        let name = to_lowercase(&trim_start_of(channel, &AT_SIGN));
        let known = match memory.last_seen_ids.get(&name) {
            Some(id) => Some(*id),
            None => None,
        };
        let gathered: TextMap<TextSet> = TextMap::new();
        assert(contents(gathered@) =~= Map::<Seq<char>, Set<Seq<char>>>::empty());
        ChannelScan {
            channel: channel.to_string(),
            known,
            pages: 0,
            highest: 0,
            before: None,
            found: 0,
            gathered,
            hit_known: false,
        }
    }

    /// The address of the page to read next, as long as no stop was asked for,
    /// no known post was met and pages are left.
    pub fn next_page(&self, stop: bool, max_pages: usize) -> (r: Option<String>)
        ensures
            opt_text(r) == (if stop || self@.hit_known || self@.pages >= max_pages {
                None
            } else {
                Some(page_address(self@.channel, self@.before))
            }),
    {
        if stop || self.hit_known || self.pages >= max_pages {
            return None;
        }
        let mut url = concat("https://t.me/s/", &self.channel);
        match &self.before {
            Some(id) => {
                push_text(&mut url, &concat("?before=", id));
            },
            None => {},
        }
        Some(url)
    }

    fn take_links(&mut self, links: &Vec<String>)
        ensures
            final(self)@ == (ScanView {
                found: at_most(old(self)@.found + links@.len(), usize::MAX as int) as usize,
                gathered: with_found(
                    old(self)@.gathered,
                    texts(links@),
                    links@.len() as int,
                ),
                ..old(self)@
            }),
    {
        let ghost was = self@;
        let ghost all = texts(links@);
        for i in 0..links.len()
            invariant
                all == texts(links@),
                self@ == (ScanView {
                    found: at_most(was.found + i, usize::MAX as int) as usize,
                    gathered: with_found(was.gathered, all, i as int),
                    ..was
                }),
        {
            let link = trim_end_of(&links[i], &LINK_TAIL);
            assert(link@ == clean_link(all[i as int]));
            proof {
                reveal_strlit("://");
                lemma_found_splits(link@, "://"@);
            }
            let parts = split(&link, "://");
            assert(texts(parts@).len() == parts@.len());
            assert(texts(parts@)[0] == parts@[0]@);
            let proto = to_lowercase(&parts[0]);
            self.found = self.found.saturating_add(1);
            add_link(&mut self.gathered, &proto, link);
        }
    }

    fn take_post(&mut self, post: &Post, now: Timestamp, days: i64)
        ensures
            final(self)@ == with_post(old(self)@, post@, now, days as int),
    {
        if post.id > self.highest {
            self.highest = post.id;
        }
        let known = match self.known {
            Some(k) => post.id > 0 && post.id <= k,
            None => false,
        };
        if known {
            self.hit_known = true;
            return;
        }
        let recent = match post.date {
            Some(t) => is_within(t, now, days),
            None => true,
        };
        assert(texts(post.links@).len() == post.links@.len());
        if recent {
            self.take_links(&post.links);
        }
    }

    /// Takes the posts of a page and where the next page begins; says whether
    /// another page is read.
    pub fn take_posts(
        &mut self,
        page: &Vec<Post>,
        next: Option<String>,
        now: Timestamp,
        days: i64,
    ) -> (r: bool)
        ensures
            final(self)@ == with_page(old(self)@, posts(page@), opt_text(next), now, days as int),
            r == goes_on(old(self)@, final(self)@),
    {
        let ghost was = self@;
        let ghost all = posts(page@);
        let found_before: usize = self.found;
        for i in 0..page.len()
            invariant
                all == posts(page@),
                self@ == with_posts(was, all, now, days as int, i as int),
        {
            assert(all[i as int] == page@[i as int]@);
            self.take_post(&page[i], now, days);
        }
        proof {
            lemma_posts_keep(was, all, now, days as int, all.len() as int);
        }
        self.before = next;
        self.pages = self.pages.saturating_add(1);
        !self.hit_known && self.before.is_some() && self.found > found_before
    }

    /// Takes a page as it came; says whether another page is read.
    pub fn take_page(&mut self, raw_html: &str, now: Timestamp, days: i64) -> (r: bool)
        ensures
            final(self)@ == with_page(
                old(self)@,
                posts_in(unescaped(raw_html@)),
                next_before(unescaped(raw_html@)),
                now,
                days as int,
            ),
            r == goes_on(old(self)@, final(self)@),
    {
        let html = decode_entities(raw_html);
        let ids = match_captures(POST_PATTERN, &html);
        assert(texts(ids@).len() == ids@.len());
        let next = if ids.len() > 0 {
            assert(texts(ids@)[ids@.len() - 1] == ids@[ids@.len() - 1]@);
            Some(ids[ids.len() - 1].clone())
        } else {
            None
        };
        let page = read_posts(&html);
        self.take_posts(&page, next, now, days)
    }

    /// Takes what came of asking for a page; says whether another page is read.
    /// After a failed request or a refusal none is; a page that came but could
    /// not be read is passed over.
    pub fn take_reply(&mut self, reply: PageReply, now: Timestamp, days: i64) -> (r: bool)
        ensures
            match reply {
                PageReply::Page(raw) => final(self)@ == with_page(
                    old(self)@,
                    posts_in(unescaped(raw@)),
                    next_before(unescaped(raw@)),
                    now,
                    days as int,
                ) && r == goes_on(old(self)@, final(self)@),
                PageReply::Unreadable => final(self)@ == passed_over(old(self)@) && r,
                PageReply::Refused | PageReply::Failed => final(self)@ == old(self)@ && !r,
            },
    {
        match reply {
            PageReply::Page(raw) => self.take_page(&raw, now, days),
            PageReply::Unreadable => {
                self.pages = self.pages.saturating_add(1);
                true
            },
            PageReply::Refused | PageReply::Failed => false,
        }
    }

    /// Remembers the highest post that was seen, where one was.
    pub fn remember(&self, memory: &mut ChannelMemory)
        ensures
            final(memory).last_seen_ids@ == (if self@.highest > 0 {
                old(memory).last_seen_ids@.insert(memory_name(self@.channel), self@.highest)
            } else {
                old(memory).last_seen_ids@
            }),
    {
        if self.highest > 0 {
            let name = to_lowercase(&trim_start_of(&self.channel, &AT_SIGN));
            memory.last_seen_ids.insert(name, self.highest);
        }
    }
}

proof fn lemma_posts_keep(v: ScanView, ps: Seq<PostView>, now: Timestamp, days: int, n: int)
    ensures
        with_posts(v, ps, now, days, n).pages == v.pages,
        with_posts(v, ps, now, days, n).found >= v.found,
        with_posts(v, ps, now, days, n).known == v.known,
        with_posts(v, ps, now, days, n).channel == v.channel,
    decreases n,
{
    if n > 0 {
        lemma_posts_keep(v, ps, now, days, n - 1);
    }
}

// ---------------------------------------------------------------------------
// The end of a round
// ---------------------------------------------------------------------------

/// `m` with all links of the first `n` protocols of `more`.
pub open spec fn joined_from(
    m: Map<Seq<char>, Set<Seq<char>>>,
    more: Map<Seq<char>, Set<Seq<char>>>,
    keys: Seq<Seq<char>>,
    n: int,
) -> Map<Seq<char>, Set<Seq<char>>>
    decreases n,
{
    if n <= 0 {
        m
    } else {
        with_links(joined_from(m, more, keys, n - 1), keys[n - 1], more[keys[n - 1]])
    }
}

/// The links of both.
pub open spec fn joined_stores(
    m: Map<Seq<char>, Set<Seq<char>>>,
    more: Map<Seq<char>, Set<Seq<char>>>,
) -> Map<Seq<char>, Set<Seq<char>>> {
    Map::new(
        |p: Seq<char>| m.contains_key(p) || more.contains_key(p),
        |p: Seq<char>| links_under(m, p).union(links_under(more, p)),
    )
}

proof fn lemma_joined_from(
    m: Map<Seq<char>, Set<Seq<char>>>,
    more: Map<Seq<char>, Set<Seq<char>>>,
    keys: Seq<Seq<char>>,
    n: int,
    p: Seq<char>,
)
    requires
        0 <= n <= keys.len(),
    ensures
        joined_from(m, more, keys, n).contains_key(p) <==> m.contains_key(p) || keys.take(
            n,
        ).contains(p),
        joined_from(m, more, keys, n).contains_key(p) ==> joined_from(m, more, keys, n)[p]
            == links_under(m, p).union(
            if keys.take(n).contains(p) {
                more[p]
            } else {
                Set::empty()
            },
        ),
    decreases n,
{
    if n > 0 {
        lemma_joined_from(m, more, keys, n - 1, p);
        let k = keys[n - 1];
        assert(keys.take(n) =~= keys.take(n - 1).push(k));
        if keys.take(n - 1).contains(p) {
            let i = keys.take(n - 1).index_of(p);
            assert(keys.take(n)[i] == p);
        }
        if keys.take(n).contains(p) && p != k {
            let i = keys.take(n).index_of(p);
            assert(keys.take(n - 1)[i] == p);
        }
        assert(keys.take(n)[n - 1] == k);
        if p == k {
            assert(joined_from(m, more, keys, n)[p] =~= links_under(m, p).union(more[p]));
        }
    } else {
        assert(keys.take(0) =~= Seq::<Seq<char>>::empty());
        if m.contains_key(p) {
            assert(m[p] =~= links_under(m, p).union(Set::empty()));
        }
    }
}

/// Adds the links of a channel to those of all.
pub fn absorb(all: &mut TextMap<TextSet>, more: &TextMap<TextSet>)
    ensures
        contents(final(all)@) == joined_stores(contents(old(all)@), contents(more@)),
{
    let ghost m = contents(all@);
    let ghost add = contents(more@);
    let ghost keys = listing(more@.dom());
    let n: usize = more.len();
    assert(add.dom() =~= more@.dom());
    for i in 0..n
        invariant
            add == contents(more@),
            keys == listing(more@.dom()),
            n == keys.len(),
            contents(all@) == joined_from(m, add, keys, i as int),
    {
        let links = more.value(i);
        assert(add[keys[i as int]] == links@);
        add_links(all, more.key(i), links);
    }
    proof {
        assert(keys.take(n as int) =~= keys);
        assert forall|p: Seq<char>| contents(all@).contains_key(p) <==> joined_stores(
            m,
            add,
        ).contains_key(p) by {
            lemma_joined_from(m, add, keys, n as int, p);
            assert(keys.contains(p) <==> keys.to_set().contains(p));
        }
        assert forall|p: Seq<char>| #[trigger] contents(all@).contains_key(p) implies contents(
            all@,
        )[p] == joined_stores(m, add)[p] by {
            lemma_joined_from(m, add, keys, n as int, p);
            assert(keys.contains(p) <==> keys.to_set().contains(p));
        }
        assert(contents(all@) =~= joined_stores(m, add));
    }
}

/// How many links each protocol has, in words.
pub open spec fn breakdown_parts(data: Map<Seq<char>, Set<Seq<char>>>) -> Seq<Seq<char>> {
    let keys = listing(data.dom());
    Seq::new(keys.len(), |i: int| keys[i] + ": "@ + decimal(data[keys[i]].len()))
}

/// How many links each protocol has, in one line.
pub open spec fn breakdown_text(data: Map<Seq<char>, Set<Seq<char>>>) -> Seq<char> {
    if breakdown_parts(data).len() == 0 {
        "None"@
    } else {
        joined(breakdown_parts(data), ", "@)
    }
}

/// How many links each protocol has, in one line.
pub fn breakdown(store: &TextMap<TextSet>) -> (r: String)
    ensures
        r@ == breakdown_text(contents(store@)),
{
    let ghost data = contents(store@);
    let ghost keys = listing(store@.dom());
    let ghost all = breakdown_parts(data);
    let n: usize = store.len();
    assert(data.dom() =~= store@.dom());
    let mut parts: Vec<String> = Vec::new();
    for i in 0..n
        invariant
            data == contents(store@),
            keys == listing(store@.dom()),
            data.dom() == store@.dom(),
            all == breakdown_parts(data),
            n == keys.len(),
            texts(parts@) == all.take(i as int),
    {
        let ghost before = parts@;
        let links = store.value(i);
        assert(data[keys[i as int]] == links@);
        let mut part = concat(store.key(i), ": ");
        push_text(&mut part, &decimal_text(links.len() as u128));
        parts.push(part);
        assert(texts(parts@) =~= texts(before).push(all[i as int]));
        assert(all.take(i + 1) =~= all.take(i as int).push(all[i as int]));
    }
    assert(all.take(n as int) =~= all);
    assert(texts(parts@).len() == parts@.len());
    if parts.len() == 0 {
        "None".to_string()
    } else {
        join(&parts, ", ")
    }
}

/// The links with the short name of a protocol brought under its long name.
pub open spec fn without_alias(data: Map<Seq<char>, Set<Seq<char>>>) -> Map<
    Seq<char>,
    Set<Seq<char>>,
> {
    if data.contains_key("hy2"@) {
        with_links(data.remove("hy2"@), "hysteria2"@, data["hy2"@])
    } else {
        data
    }
}

/// Brings the links with the short name of a protocol under its long name.
pub fn fold_alias(store: &mut TextMap<TextSet>)
    ensures
        contents(final(store)@) == without_alias(contents(old(store)@)),
{
    let ghost data = contents(store@);
    match store.remove("hy2") {
        Some(links) => {
            assert(contents(store@) =~= data.remove("hy2"@));
            add_links(store, "hysteria2", &links);
        },
        None => {
            assert(contents(store@) =~= data);
        },
    }
}

/// The links of the first `n` protocols.
pub open spec fn links_before(
    data: Map<Seq<char>, Set<Seq<char>>>,
    keys: Seq<Seq<char>>,
    n: int,
) -> Set<Seq<char>>
    decreases n,
{
    if n <= 0 {
        Set::empty()
    } else {
        links_before(data, keys, n - 1).union(data[keys[n - 1]])
    }
}

/// The links of all protocols.
pub open spec fn all_links(data: Map<Seq<char>, Set<Seq<char>>>) -> Set<Seq<char>> {
    links_before(data, listing(data.dom()), listing(data.dom()).len() as int)
}

/// The links of the first `n` protocols that are not among `sent`; a link that
/// several protocols have counts for the first. A protocol without any is left
/// out.
pub open spec fn news_from(
    data: Map<Seq<char>, Set<Seq<char>>>,
    sent: Set<Seq<char>>,
    keys: Seq<Seq<char>>,
    n: int,
) -> Map<Seq<char>, Set<Seq<char>>>
    decreases n,
{
    if n <= 0 {
        Map::empty()
    } else {
        let before = news_from(data, sent, keys, n - 1);
        let new = data[keys[n - 1]].difference(sent.union(links_before(data, keys, n - 1)));
        if new == Set::<Seq<char>>::empty() {
            before
        } else {
            before.insert(keys[n - 1], new)
        }
    }
}

/// The links that were not handed out before.
pub open spec fn news(data: Map<Seq<char>, Set<Seq<char>>>, sent: Set<Seq<char>>) -> Map<
    Seq<char>,
    Set<Seq<char>>,
> {
    news_from(data, sent, listing(data.dom()), listing(data.dom()).len() as int)
}

/// `after` remembers all that `before` does, each with its own instant.
pub open spec fn keeps(before: Map<Seq<char>, Timestamp>, after: Map<Seq<char>, Timestamp>) -> bool {
    forall|l: Seq<char>| #[trigger]
        before.contains_key(l) ==> after.contains_key(l) && after[l] == before[l]
}

/// What `after` remembers beyond `before` was handed out at `now`.
pub open spec fn stamped(
    before: Map<Seq<char>, Timestamp>,
    after: Map<Seq<char>, Timestamp>,
    now: Timestamp,
) -> bool {
    forall|l: Seq<char>| #[trigger]
        after.contains_key(l) && !before.contains_key(l) ==> after[l] == now
}

fn take_new_links(history: &mut SentHistory, links: &TextSet, now: Timestamp) -> (r: TextSet)
    ensures
        r@ == links@.difference(old(history).sent_at@.dom()),
        final(history).sent_at@.dom() == old(history).sent_at@.dom().union(links@),
        keeps(old(history).sent_at@, final(history).sent_at@),
        stamped(old(history).sent_at@, final(history).sent_at@, now),
{
    let ghost was = history.sent_at@;
    let list = links.to_vec();
    let ghost all = listing(links@);
    let mut new = TextSet::new();
    assert(all.take(0).to_set() =~= Set::<Seq<char>>::empty());
    assert(was.dom() =~= was.dom().union(Set::empty()));
    for i in 0..list.len()
        invariant
            texts(list@) == all,
            new@ == all.take(i as int).to_set().difference(was.dom()),
            history.sent_at@.dom() == was.dom().union(all.take(i as int).to_set()),
            keeps(was, history.sent_at@),
            stamped(was, history.sent_at@, now),
    {
        let ghost x = all[i as int];
        let ghost held = history.sent_at@;
        assert(list@[i as int]@ == x);
        proof {
            lemma_take_one_more(all, i as int);
        }
        if !history.sent_at.contains_key(&list[i]) {
            history.sent_at.insert(list[i].clone(), now);
            new.insert(list[i].clone());
        }
        assert(new@ =~= all.take(i + 1).to_set().difference(was.dom()));
        assert(history.sent_at@.dom() =~= was.dom().union(all.take(i + 1).to_set()));
    }
    assert(all.take(list@.len() as int) =~= all);
    new
}

/// Takes out of a round the links that were not handed out before, and
/// remembers them as handed out at `now`; gives them and how many there are.
pub fn take_new_at(
    history: &mut SentHistory,
    store: &TextMap<TextSet>,
    now: Timestamp,
) -> (r: (TextMap<TextSet>, usize))
    ensures
        contents(r.0@) == news(contents(store@), old(history).sent_at@.dom()),
        r.1 == final(history).sent_at@.dom().len() - old(history).sent_at@.dom().len(),
        final(history).sent_at@.dom() == old(history).sent_at@.dom().union(
            all_links(contents(store@)),
        ),
        keeps(old(history).sent_at@, final(history).sent_at@),
        stamped(old(history).sent_at@, final(history).sent_at@, now),
{
    let ghost was = history.sent_at@;
    let ghost data = contents(store@);
    let ghost keys = listing(store@.dom());
    let known_before: usize = history.sent_at.len();
    let n: usize = store.len();
    assert(data.dom() =~= store@.dom());
    let mut out: TextMap<TextSet> = TextMap::new();
    assert(contents(out@) =~= Map::<Seq<char>, Set<Seq<char>>>::empty());
    assert(was.dom() =~= was.dom().union(Set::empty()));
    for i in 0..n
        invariant
            data == contents(store@),
            keys == listing(store@.dom()),
            n == keys.len(),
            contents(out@) == news_from(data, was.dom(), keys, i as int),
            history.sent_at@.dom() == was.dom().union(links_before(data, keys, i as int)),
            keeps(was, history.sent_at@),
            stamped(was, history.sent_at@, now),
    {
        let links = store.value(i);
        assert(data[keys[i as int]] == links@);
        let ghost held = history.sent_at@;
        let new = take_new_links(history, links, now);
        proof {
            assert(history.sent_at@.dom() =~= was.dom().union(links_before(data, keys, i + 1)));
        }
        if !new.is_empty() {
            set_links(&mut out, store.key(i), new);
        }
    }
    let known_after: usize = history.sent_at.len();
    proof {
        vstd::set_lib::lemma_len_subset(was.dom(), history.sent_at@.dom());
    }
    (out, known_after - known_before)
}

/// Takes out of a round the links that were not handed out before, and
/// remembers them as handed out now; gives them and how many there are.
pub fn take_new(history: &mut SentHistory, store: &TextMap<TextSet>) -> (r: (
    TextMap<TextSet>,
    usize,
))
    ensures
        contents(r.0@) == news(contents(store@), old(history).sent_at@.dom()),
        r.1 == final(history).sent_at@.dom().len() - old(history).sent_at@.dom().len(),
        final(history).sent_at@.dom() == old(history).sent_at@.dom().union(
            all_links(contents(store@)),
        ),
        keeps(old(history).sent_at@, final(history).sent_at@),
        exists|now: Timestamp|
            now.secs >= 0 && now.nanos < 1_000_000_000 && #[trigger] stamped(
                old(history).sent_at@,
                final(history).sent_at@,
                now,
            ),
{
    let now = Timestamp::now();
    take_new_at(history, store, now)
}

/// How many links each protocol has.
pub open spec fn counts(data: Map<Seq<char>, Set<Seq<char>>>) -> Map<Seq<char>, nat> {
    Map::new(|p: Seq<char>| data.contains_key(p), |p: Seq<char>| data[p].len())
}

/// The numbers that a map holds.
pub open spec fn count_map(m: Map<Seq<char>, usize>) -> Map<Seq<char>, nat> {
    Map::new(|p: Seq<char>| m.contains_key(p), |p: Seq<char>| m[p] as nat)
}

/// How many links each protocol has.
pub fn count_links(store: &TextMap<TextSet>) -> (r: TextMap<usize>)
    ensures
        count_map(r@) == counts(contents(store@)),
{
    let ghost data = contents(store@);
    let ghost keys = listing(store@.dom());
    let n: usize = store.len();
    assert(data.dom() =~= store@.dom());
    let mut out: TextMap<usize> = TextMap::new();
    assert(keys.take(0).to_set() =~= Set::<Seq<char>>::empty());
    for i in 0..n
        invariant
            data == contents(store@),
            keys == listing(store@.dom()),
            n == keys.len(),
            out@.dom() == keys.take(i as int).to_set(),
            forall|p: Seq<char>| #[trigger] out@.contains_key(p) ==> out@[p] == data[p].len(),
    {
        let links = store.value(i);
        assert(data[keys[i as int]] == links@);
        proof {
            lemma_take_one_more(keys, i as int);
        }
        let count: usize = links.len();
        out.insert(store.key(i).clone(), count);
        assert(out@.dom() =~= keys.take(i + 1).to_set());
    }
    assert(keys.take(n as int) =~= keys);
    assert(count_map(out@) =~= counts(data));
    out
}

/// What is reported when a channel was read.
pub open spec fn channel_report(done: nat, total: nat, v: ScanView) -> Seq<char> {
    "["@ + decimal(done) + "/"@ + decimal(total) + "] ✔️ @"@ + v.channel + " -> Extracted: "@
        + decimal(v.found as nat) + " ("@ + breakdown_text(v.gathered) + ")"@
}

/// What is reported when a channel was read.
pub fn channel_event(done: usize, total: usize, scan: &ChannelScan) -> (r: AppEvent)
    ensures
        r matches AppEvent::Log(LogLevel::Success, text) && text@ == channel_report(
            done as nat,
            total as nat,
            scan@,
        ),
{
    let mut text = concat("[", &decimal_text(done as u128));
    push_text(&mut text, "/");
    push_text(&mut text, &decimal_text(total as u128));
    push_text(&mut text, "] ✔️ @");
    push_text(&mut text, &scan.channel);
    push_text(&mut text, " -> Extracted: ");
    push_text(&mut text, &decimal_text(scan.found as u128));
    push_text(&mut text, " (");
    push_text(&mut text, &breakdown(&scan.gathered));
    push_text(&mut text, ")");
    log_worker(LogLevel::Success, text)
}

/// What a round brought: all links and the new ones, how many are new and of
/// which protocols, and which of the two lists are to be written.
pub struct Round {
    pub all: TextMap<TextSet>,
    pub new_only: TextMap<TextSet>,
    pub total_new: usize,
    pub by_protocol: TextMap<usize>,
    pub write_new: bool,
    pub write_all: bool,
}

/// Ends a round: the links that the rules leave of what was gathered, and of
/// those the ones that were not handed out before, which are remembered as
/// handed out at `now`. A list is written where the settings ask for it and it has
/// any protocol.
pub fn finish_round_at(
    gathered: TextMap<TextSet>,
    config: &AppConfig,
    history: &mut SentHistory,
    now: Timestamp,
) -> (r: Round)
    ensures
        contents(r.all@) == limited(
            without_alias(contents(gathered@)),
            config.protocol_rules@,
        ),
        contents(r.new_only@) == news(contents(r.all@), old(history).sent_at@.dom()),
        r.total_new == final(history).sent_at@.dom().len() - old(history).sent_at@.dom().len(),
        count_map(r.by_protocol@) == counts(contents(r.new_only@)),
        r.write_new == (config.output_new_only_enabled && r.new_only@.dom().len() > 0),
        r.write_all == (config.output_append_unique_enabled && r.all@.dom().len() > 0),
        final(history).sent_at@.dom() == old(history).sent_at@.dom().union(
            all_links(contents(r.all@)),
        ),
        keeps(old(history).sent_at@, final(history).sent_at@),
        stamped(old(history).sent_at@, final(history).sent_at@, now),
{
    let mut all = gathered;
    fold_alias(&mut all);
    apply_protocol_limits(&mut all, &config.protocol_rules);
    let (new_only, total_new) = take_new_at(history, &all, now);
    let by_protocol = count_links(&new_only);
    let write_new = config.output_new_only_enabled && new_only.len() > 0;
    let write_all = config.output_append_unique_enabled && all.len() > 0;
    Round { all, new_only, total_new, by_protocol, write_new, write_all }
}

/// Ends a round: the links that the rules leave of what was gathered, and of
/// those the ones that were not handed out before, which are remembered as
/// handed out now. A list is written where the settings ask for it and it has
/// any protocol.
pub fn finish_round(
    gathered: TextMap<TextSet>,
    config: &AppConfig,
    history: &mut SentHistory,
) -> (r: Round)
    ensures
        contents(r.all@) == limited(
            without_alias(contents(gathered@)),
            config.protocol_rules@,
        ),
        contents(r.new_only@) == news(contents(r.all@), old(history).sent_at@.dom()),
        r.total_new == final(history).sent_at@.dom().len() - old(history).sent_at@.dom().len(),
        count_map(r.by_protocol@) == counts(contents(r.new_only@)),
        r.write_new == (config.output_new_only_enabled && r.new_only@.dom().len() > 0),
        r.write_all == (config.output_append_unique_enabled && r.all@.dom().len() > 0),
        final(history).sent_at@.dom() == old(history).sent_at@.dom().union(
            all_links(contents(r.all@)),
        ),
        keeps(old(history).sent_at@, final(history).sent_at@),
        exists|now: Timestamp|
            now.secs >= 0 && now.nanos < 1_000_000_000 && #[trigger] stamped(
                old(history).sent_at@,
                final(history).sent_at@,
                now,
            ),
{
    let now = Timestamp::now();
    finish_round_at(gathered, config, history, now)
}

// ---------------------------------------------------------------------------
// Messages
// ---------------------------------------------------------------------------

/// The message that collecting begins.
pub fn started_event(channels: usize, threads: usize) -> (r: AppEvent)
    ensures
        says(
            r,
            LogLevel::Info,
            "🚀 Crawler Started | "@ + decimal(channels as nat) + " Channels | Threads: "@
                + decimal(threads as nat),
        ),
{
    let mut text = "🚀 Crawler Started | ".to_string();
    push_text(&mut text, &decimal_text(channels as u128));
    push_text(&mut text, " Channels | Threads: ");
    push_text(&mut text, &decimal_text(threads as u128));
    log_worker(LogLevel::Info, text)
}

/// The message that a page did not come.
pub fn failed_page_event(page: usize, channel: &str) -> (r: AppEvent)
    ensures
        says(
            r,
            LogLevel::Warning,
            "⚠️ Failed page "@ + decimal(page as nat) + " of @"@ + channel@,
        ),
{
    let mut text = "⚠️ Failed page ".to_string();
    push_text(&mut text, &decimal_text(page as u128));
    push_text(&mut text, " of @");
    push_text(&mut text, channel);
    log_worker(LogLevel::Warning, text)
}

/// The message that a known post of a channel was met.
pub fn known_post_event(channel: &str) -> (r: AppEvent)
    ensures
        says(
            r,
            LogLevel::Debug,
            "⏭️ @"@ + channel@ + " -> Reached previously scanned posts."@,
        ),
{
    let mut text = "⏭️ @".to_string();
    push_text(&mut text, channel);
    push_text(&mut text, " -> Reached previously scanned posts.");
    log_worker(LogLevel::Debug, text)
}

/// The message that a round is over: how many links were found, and how many
/// of them are new.
pub fn cycle_event(total: usize, new: usize) -> (r: AppEvent)
    ensures
        says(
            r,
            LogLevel::Success,
            "🎉 CYCLE COMPLETE! Total: "@ + decimal(total as nat) + " | NEW: "@
                + decimal(new as nat),
        ),
{
    let mut text = "🎉 CYCLE COMPLETE! Total: ".to_string();
    push_text(&mut text, &decimal_text(total as u128));
    push_text(&mut text, " | NEW: ");
    push_text(&mut text, &decimal_text(new as u128));
    log_worker(LogLevel::Success, text)
}

/// The message that the next round is waited for.
pub fn sleep_event(minutes: u64) -> (r: AppEvent)
    ensures
        says(
            r,
            LogLevel::Info,
            "💤 Sleeping for "@ + decimal(minutes as nat) + " minutes..."@,
        ),
{
    let mut text = "💤 Sleeping for ".to_string();
    push_text(&mut text, &decimal_text(minutes as u128));
    push_text(&mut text, " minutes...");
    log_worker(LogLevel::Info, text)
}

// ---------------------------------------------------------------------------
// Laws
// ---------------------------------------------------------------------------

proof fn lemma_no_news(
    data: Map<Seq<char>, Set<Seq<char>>>,
    sent: Set<Seq<char>>,
    keys: Seq<Seq<char>>,
    n: int,
    m: int,
)
    requires
        0 <= n <= m,
        links_before(data, keys, m).subset_of(sent),
    ensures
        news_from(data, sent, keys, n) == Map::<Seq<char>, Set<Seq<char>>>::empty(),
        links_before(data, keys, n).subset_of(links_before(data, keys, m)),
    decreases n,
{
    lemma_before_grows(data, keys, n, m);
    if n > 0 {
        lemma_no_news(data, sent, keys, n - 1, m);
        assert(data[keys[n - 1]].subset_of(links_before(data, keys, n)));
        let new = data[keys[n - 1]].difference(sent.union(links_before(data, keys, n - 1)));
        assert(new =~= Set::<Seq<char>>::empty());
    }
}

proof fn lemma_before_grows(
    data: Map<Seq<char>, Set<Seq<char>>>,
    keys: Seq<Seq<char>>,
    n: int,
    m: int,
)
    requires
        0 <= n <= m,
    ensures
        links_before(data, keys, n).subset_of(links_before(data, keys, m)),
    decreases m - n,
{
    if n < m {
        lemma_before_grows(data, keys, n, m - 1);
    }
}

/// Links that were handed out are not new again: a round that is repeated
/// after its links were remembered brings nothing.
pub proof fn repeated_round_brings_nothing(
    data: Map<Seq<char>, Set<Seq<char>>>,
    sent: Set<Seq<char>>,
)
    ensures
        news(data, sent.union(all_links(data))) == Map::<Seq<char>, Set<Seq<char>>>::empty(),
{
    let keys = listing(data.dom());
    let n = keys.len() as int;
    lemma_no_news(data, sent.union(all_links(data)), keys, n, n);
}

/// Where every link of a round was handed out within the days that the history
/// looks back, at `now` or before, the round brings nothing when it is repeated
/// after the history forgot what is older.
pub proof fn repeated_round_brings_nothing_while_remembered(
    data: Map<Seq<char>, Set<Seq<char>>>,
    sent: Map<Seq<char>, Timestamp>,
    after: Map<Seq<char>, Timestamp>,
    now: Timestamp,
    later: Timestamp,
    days: int,
)
    requires
        after.dom() == sent.dom().union(all_links(data)),
        keeps(sent, after),
        stamped(sent, after, now),
        within(now, later, days),
        forall|l: Seq<char>| #[trigger]
            all_links(data).contains(l) && sent.contains_key(l) ==> within(sent[l], later, days),
    ensures
        news(data, recent(after, later, days).dom()) == Map::<Seq<char>, Set<Seq<char>>>::empty(),
{
    let left = recent(after, later, days);
    let keys = listing(data.dom());
    let n = keys.len() as int;
    assert forall|l: Seq<char>| all_links(data).contains(l) implies left.dom().contains(l) by {
        assert(after.dom().contains(l));
        if sent.contains_key(l) {
            assert(after[l] == sent[l]);
        } else {
            assert(after.contains_key(l) && !sent.contains_key(l));
            assert(after[l] == now);
        }
    }
    lemma_no_news(data, left.dom(), keys, n, n);
}

proof fn lemma_news(
    data: Map<Seq<char>, Set<Seq<char>>>,
    sent: Set<Seq<char>>,
    keys: Seq<Seq<char>>,
    n: int,
    l: Seq<char>,
)
    requires
        0 <= n <= keys.len(),
        keys.no_duplicates(),
    ensures
        forall|p: Seq<char>| #[trigger]
            news_from(data, sent, keys, n).contains_key(p) ==> keys.take(n).contains(p),
        holds_link(news_from(data, sent, keys, n), l) <==> links_before(data, keys, n).contains(l)
            && !sent.contains(l),
    decreases n,
{
    let now = news_from(data, sent, keys, n);
    if n > 0 {
        lemma_news(data, sent, keys, n - 1, l);
        let before = news_from(data, sent, keys, n - 1);
        let k = keys[n - 1];
        let new = data[k].difference(sent.union(links_before(data, keys, n - 1)));
        assert forall|p: Seq<char>| #[trigger] now.contains_key(p) implies keys.take(n).contains(
            p,
        ) by {
            if p == k {
                assert(keys.take(n)[n - 1] == k);
            } else {
                let i = keys.take(n - 1).index_of(p);
                assert(keys.take(n)[i] == p);
            }
        }
        assert(!before.contains_key(k)) by {
            if before.contains_key(k) {
                let i = keys.take(n - 1).index_of(k);
                assert(keys[i] == k);
            }
        }
        if holds_link(now, l) {
            let p = choose|p: Seq<char>| #[trigger] now.contains_key(p) && now[p].contains(l);
            if p != k {
                assert(before.contains_key(p) && before[p].contains(l));
            }
        }
        if links_before(data, keys, n).contains(l) && !sent.contains(l) {
            if links_before(data, keys, n - 1).contains(l) {
                let p = choose|p: Seq<char>| #[trigger]
                    before.contains_key(p) && before[p].contains(l);
                assert(p != k);
                assert(now.contains_key(p) && now[p].contains(l));
            } else {
                assert(new.contains(l));
                assert(now.contains_key(k) && now[k].contains(l));
            }
        }
    }
}

/// The new links of a round are those of its links that were not handed out
/// before, none missing and none beside.
pub proof fn news_are_what_was_not_sent(
    data: Map<Seq<char>, Set<Seq<char>>>,
    sent: Set<Seq<char>>,
    l: Seq<char>,
)
    requires
        data.dom().finite(),
    ensures
        holds_link(news(data, sent), l) <==> all_links(data).contains(l) && !sent.contains(l),
{
    let keys = listing(data.dom());
    listing_holds_the_members(data.dom());
    listing_of_ascending(keys);
    lemma_news(data, sent, keys, keys.len() as int, l);
}

/// The sum of the counts of the first `n` protocols; one without a count adds
/// nothing.
pub open spec fn sum_of(m: Map<Seq<char>, nat>, keys: Seq<Seq<char>>, n: int) -> nat
    decreases n,
{
    if n <= 0 {
        0
    } else {
        sum_of(m, keys, n - 1) + (if m.contains_key(keys[n - 1]) {
            m[keys[n - 1]]
        } else {
            0
        })
    }
}

proof fn lemma_sum_stays(
    a: Map<Seq<char>, nat>,
    b: Map<Seq<char>, nat>,
    keys: Seq<Seq<char>>,
    n: int,
)
    requires
        0 <= n <= keys.len(),
        forall|i: int|
            0 <= i < n ==> a.contains_key(#[trigger] keys[i]) == b.contains_key(keys[i]) && (
            a.contains_key(keys[i]) ==> a[keys[i]] == b[keys[i]]),
    ensures
        sum_of(a, keys, n) == sum_of(b, keys, n),
    decreases n,
{
    if n > 0 {
        lemma_sum_stays(a, b, keys, n - 1);
    }
}

proof fn lemma_new_total(
    data: Map<Seq<char>, Set<Seq<char>>>,
    sent: Set<Seq<char>>,
    keys: Seq<Seq<char>>,
    n: int,
)
    requires
        0 <= n <= keys.len(),
        keys.no_duplicates(),
        sent.finite(),
        forall|i: int| 0 <= i < keys.len() ==> data[#[trigger] keys[i]].finite(),
    ensures
        sent.union(links_before(data, keys, n)).finite(),
        sent.union(links_before(data, keys, n)).len() == sent.len() + sum_of(
            counts(news_from(data, sent, keys, n)),
            keys,
            n,
        ),
    decreases n,
{
    if n <= 0 {
        assert(sent.union(links_before(data, keys, n)) =~= sent);
    } else {
        lemma_new_total(data, sent, keys, n - 1);
        lemma_news(data, sent, keys, n - 1, keys[n - 1]);
        let known = sent.union(links_before(data, keys, n - 1));
        let before = news_from(data, sent, keys, n - 1);
        let now = news_from(data, sent, keys, n);
        let k = keys[n - 1];
        let new = data[k].difference(known);
        assert(sent.union(links_before(data, keys, n)) =~= known.union(new));
        vstd::set_lib::lemma_set_disjoint_lens(known, new);
        assert(!before.contains_key(k)) by {
            if before.contains_key(k) {
                let i = keys.take(n - 1).index_of(k);
                assert(keys[i] == k);
            }
        }
        assert forall|i: int| 0 <= i < n - 1 implies counts(before).contains_key(
            #[trigger] keys[i],
        ) == counts(now).contains_key(keys[i]) && (counts(before).contains_key(keys[i])
            ==> counts(before)[keys[i]] == counts(now)[keys[i]]) by {
            assert(keys[i] != k);
        }
        lemma_sum_stays(counts(before), counts(now), keys, n - 1);
        if new =~= Set::<Seq<char>>::empty() {
            assert(new.len() == 0);
        } else {
            assert(counts(now)[k] == new.len());
        }
    }
}

/// The number by which the history grows in a round is the sum of the counts of
/// its new links.
pub proof fn counts_add_up_to_the_new_links(
    data: Map<Seq<char>, Set<Seq<char>>>,
    sent: Set<Seq<char>>,
)
    requires
        data.dom().finite(),
        sent.finite(),
        forall|p: Seq<char>| #[trigger] data.contains_key(p) ==> data[p].finite(),
    ensures
        sent.union(all_links(data)).len() - sent.len() == sum_of(
            counts(news(data, sent)),
            listing(data.dom()),
            listing(data.dom()).len() as int,
        ),
{
    let keys = listing(data.dom());
    listing_holds_the_members(data.dom());
    listing_of_ascending(keys);
    assert forall|i: int| 0 <= i < keys.len() implies data[#[trigger] keys[i]].finite() by {
        assert(keys.to_set().contains(keys[i]));
        assert(data.contains_key(keys[i]));
    }
    lemma_new_total(data, sent, keys, keys.len() as int);
}

/// A link that is remembered is new in a later round exactly when that round
/// has it and the history has forgotten it by then.
pub proof fn links_are_new_again_when_forgotten(
    next: Map<Seq<char>, Set<Seq<char>>>,
    sent: Map<Seq<char>, Timestamp>,
    later: Timestamp,
    days: int,
    l: Seq<char>,
)
    requires
        next.dom().finite(),
        sent.contains_key(l),
    ensures
        holds_link(news(next, recent(sent, later, days).dom()), l) <==> all_links(next).contains(l)
            && !within(sent[l], later, days),
{
    news_are_what_was_not_sent(next, recent(sent, later, days).dom(), l);
}

/// What a round hands out as new at `now` is not new in the next round, whatever
/// that round has, as long as `now` is within the days that the history looks
/// back when it forgets what is older.
pub proof fn handed_out_links_are_not_new_again(
    data: Map<Seq<char>, Set<Seq<char>>>,
    next: Map<Seq<char>, Set<Seq<char>>>,
    sent: Map<Seq<char>, Timestamp>,
    after: Map<Seq<char>, Timestamp>,
    now: Timestamp,
    later: Timestamp,
    days: int,
    l: Seq<char>,
)
    requires
        data.dom().finite(),
        next.dom().finite(),
        after.dom() == sent.dom().union(all_links(data)),
        stamped(sent, after, now),
        within(now, later, days),
        holds_link(news(data, sent.dom()), l),
    ensures
        recent(after, later, days).contains_key(l),
        !holds_link(news(next, recent(after, later, days).dom()), l),
{
    news_are_what_was_not_sent(data, sent.dom(), l);
    assert(after.dom().contains(l));
    assert(after.contains_key(l) && !sent.contains_key(l));
    links_are_new_again_when_forgotten(next, after, later, days, l);
}

/// Limits leave only what was there, no more than they allow, and applying
/// them again changes nothing.
pub proof fn limits_apply_once(
    data: Map<Seq<char>, Set<Seq<char>>>,
    rules: Map<Seq<char>, ProtocolRule>,
    p: Seq<char>,
)
    requires
        data.contains_key(p),
        data[p].finite(),
    ensures
        limited(data, rules)[p].subset_of(data[p]),
        rules.contains_key(p) && rules[p].max_count > 0 ==> limited(data, rules)[p].len()
            <= rules[p].max_count,
        limited(limited(data, rules), rules)[p] == limited(data, rules)[p],
{
    let links = data[p];
    listing_holds_the_members(links);
    let all = listing(links);
    if rules.contains_key(p) && rules[p].max_count > 0 && all.len() > rules[p].max_count {
        let m = rules[p].max_count as int;
        let some = all.take(m);
        assert(ascending(some));
        listing_of_ascending(some);
        assert forall|l: Seq<char>| some.to_set().contains(l) implies links.contains(l) by {
            let i = some.index_of(l);
            assert(all[i] == l);
            assert(all.to_set().contains(l));
        }
    }
}

/// Bringing the short name of a protocol under its long name loses no link and
/// adds none.
pub proof fn alias_keeps_every_link(data: Map<Seq<char>, Set<Seq<char>>>, l: Seq<char>)
    ensures
        !without_alias(data).contains_key("hy2"@),
        holds_link(data, l) <==> holds_link(without_alias(data), l),
{
    reveal_strlit("hy2");
    reveal_strlit("hysteria2");
    assert("hy2"@.len() != "hysteria2"@.len());
    let after = without_alias(data);
    let long = "hysteria2"@;
    if holds_link(data, l) {
        let p = choose|p: Seq<char>| #[trigger] data.contains_key(p) && data[p].contains(l);
        if data.contains_key("hy2"@) && (p == "hy2"@ || p == long) {
            assert(after.contains_key(long) && after[long].contains(l));
        } else {
            assert(after.contains_key(p) && after[p].contains(l));
        }
    }
    if holds_link(after, l) {
        let p = choose|p: Seq<char>| #[trigger] after.contains_key(p) && after[p].contains(l);
        if data.contains_key("hy2"@) && p == long {
            if data.contains_key(long) && data[long].contains(l) {
            } else {
                assert(data.contains_key("hy2"@) && data["hy2"@].contains(l));
            }
        } else {
            assert(data.contains_key(p) && data[p].contains(l));
        }
    }
}

/// A known post adds no link and no count, and ends the reading.
pub proof fn known_posts_are_skipped(v: ScanView, p: PostView, now: Timestamp, days: int)
    requires
        is_known(v.known, p.id),
    ensures
        with_post(v, p, now, days).gathered == v.gathered,
        with_post(v, p, now, days).found == v.found,
        with_post(v, p, now, days).hit_known,
{
}

proof fn lemma_highest(v: ScanView, ps: Seq<PostView>, now: Timestamp, days: int, n: int, i: int)
    requires
        0 <= n <= ps.len(),
    ensures
        with_posts(v, ps, now, days, n).highest >= v.highest,
        0 <= i < n ==> with_posts(v, ps, now, days, n).highest >= ps[i].id,
    decreases n,
{
    if n > 0 {
        lemma_highest(v, ps, now, days, n - 1, i);
    }
}

proof fn lemma_all_known(v: ScanView, ps: Seq<PostView>, now: Timestamp, days: int, n: int)
    requires
        0 <= n <= ps.len(),
        forall|i: int| 0 <= i < ps.len() ==> is_known(v.known, (#[trigger] ps[i]).id),
    ensures
        with_posts(v, ps, now, days, n).gathered == v.gathered,
        with_posts(v, ps, now, days, n).found == v.found,
        with_posts(v, ps, now, days, n).known == v.known,
        n > 0 ==> with_posts(v, ps, now, days, n).hit_known,
    decreases n,
{
    if n > 0 {
        lemma_all_known(v, ps, now, days, n - 1);
    }
}

/// A page whose posts were all read before, the highest of them being what is
/// remembered, brings nothing when it is read again, and no further page is
/// asked for.
pub proof fn page_read_again_brings_nothing(
    first: ScanView,
    again: ScanView,
    ps: Seq<PostView>,
    next: Option<Seq<char>>,
    now: Timestamp,
    later: Timestamp,
    days: int,
)
    requires
        ps.len() > 0,
        forall|i: int| 0 <= i < ps.len() ==> (#[trigger] ps[i]).id > 0,
        again.known == Some(with_page(first, ps, next, now, days).highest),
    ensures
        with_page(again, ps, next, later, days).gathered == again.gathered,
        with_page(again, ps, next, later, days).found == again.found,
        !goes_on(again, with_page(again, ps, next, later, days)),
{
    let n = ps.len() as int;
    assert forall|i: int| 0 <= i < ps.len() implies is_known(again.known, (#[trigger] ps[i]).id) by {
        lemma_highest(first, ps, now, days, n, i);
    }
    lemma_all_known(again, ps, later, days, n);
}

proof fn lemma_all_read(rows: Seq<Seq<char>>, names: Seq<Seq<char>>)
    requires
        rows.len() == names.len(),
        forall|i: int| 0 <= i < rows.len() ==> channel_in(#[trigger] rows[i]) == Some(names[i]),
    ensures
        rows.filter_map(channel_reader()) == names,
    decreases rows.len(),
{
    if rows.len() == 0 {
        assert(rows.filter_map(channel_reader()) =~= names);
    } else {
        let f = channel_reader();
        assert forall|i: int| 0 <= i < rows.drop_last().len() implies channel_in(
            #[trigger] rows.drop_last()[i],
        ) == Some(names.drop_last()[i]) by {
            assert(rows[i] == rows.drop_last()[i]);
        }
        lemma_all_read(rows.drop_last(), names.drop_last());
        assert(channel_in(rows[rows.len() - 1]) == Some(names[names.len() - 1]));
        assert(f(rows.last()) == Some(names.last()));
        assert(names.drop_last() + seq![names.last()] =~= names);
    }
}

/// A name with an at sign before it.
pub open spec fn handle(name: Seq<char>) -> Seq<char> {
    "@"@ + name
}

/// The names with an at sign before each.
pub open spec fn handles(names: Seq<Seq<char>>) -> Seq<Seq<char>> {
    Seq::new(names.len(), |i: int| handle(names[i]))
}

proof fn lemma_handle(name: Seq<char>)
    requires
        is_clean(name),
    ensures
        is_line(handle(name)),
        channel_in(handle(name)) == Some(name),
{
    reveal_strlit("@");
    reveal_strlit("#");
    let s = handle(name);
    trimmed_ends_are_bare(name, WHITE@);
    assert(WHITE@[4] == '\r');
    assert(WHITE@.contains('\r'));
    assert(s[0] == '@');
    assert(s.last() == name.last());
    assert(!s.contains('\n')) by {
        if s.contains('\n') {
            let k = s.index_of('\n');
            assert(k > 0);
            assert(name[k - 1] == '\n');
        }
    }
    assert(!WHITE@.contains('@')) by {
        if WHITE@.contains('@') {
            let k = WHITE@.index_of('@');
            assert(WHITE@[k] == '@');
        }
    }
    bare_text_stays(s, WHITE@);
    assert(s.subrange(0, 1) =~= "@"@);
    assert(s.skip(1) =~= name);
    assert(!begins(s, "#"@)) by {
        if begins(s, "#"@) {
            assert(s.subrange(0, 1)[0] == '#');
        }
    }
}

/// Channels that are listed by their names, a line each, are read as listed.
pub proof fn listed_channels_come_back(names: Seq<Seq<char>>)
    requires
        forall|i: int| 0 <= i < names.len() ==> is_clean(#[trigger] names[i]),
    ensures
        channels_in(joined(handles(names), "\n"@)) == names,
{
    let rows = handles(names);
    assert forall|i: int| 0 <= i < rows.len() implies is_line(#[trigger] rows[i]) && channel_in(
        rows[i],
    ) == Some(names[i]) by {
        assert(is_clean(names[i]));
        lemma_handle(names[i]);
    }
    joined_lines_come_back(rows);
    lemma_all_read(rows, names);
}

proof fn lemma_read_in_parts(a: Seq<Seq<char>>, b: Seq<Seq<char>>)
    ensures
        (a + b).filter_map(channel_reader()) == a.filter_map(channel_reader()) + b.filter_map(
            channel_reader(),
        ),
    decreases b.len(),
{
    let f = channel_reader();
    if b.len() == 0 {
        assert(a + b =~= a);
        assert(a.filter_map(f) + b.filter_map(f) =~= a.filter_map(f));
    } else {
        lemma_read_in_parts(a, b.drop_last());
        assert((a + b).drop_last() =~= a + b.drop_last());
        assert((a + b).last() == b.last());
        assert((a + b).filter_map(f) =~= a.filter_map(f) + b.filter_map(f));
    }
}

/// The channels of a list behind another are those of the one and then of the
/// other, where the first list ends its last line.
pub proof fn lists_of_channels_follow_each_other(a: Seq<char>, b: Seq<char>)
    requires
        a.len() > 0 ==> a.last() == '\n',
    ensures
        channels_in(a + b) == channels_in(a) + channels_in(b),
{
    lines_follow_lines(a, b);
    lemma_read_in_parts(lines_of(a), lines_of(b));
}

proof fn lemma_found_links(
    m: Map<Seq<char>, Set<Seq<char>>>,
    links: Seq<Seq<char>>,
    n: int,
    p: Seq<char>,
    l: Seq<char>,
)
    requires
        0 <= n <= links.len(),
    ensures
        links_under(with_found(m, links, n), p).contains(l) <==> links_under(m, p).contains(l)
            || exists|k: int|
            0 <= k < n && clean_link(#[trigger] links[k]) == l && protocol_of(l) == p,
    decreases n,
{
    if n > 0 {
        lemma_found_links(m, links, n - 1, p, l);
        let before = with_found(m, links, n - 1);
        let now = with_found(m, links, n);
        if links_under(now, p).contains(l) && !links_under(m, p).contains(l) {
            if links_under(before, p).contains(l) {
                let k = choose|k: int|
                    0 <= k < n - 1 && clean_link(#[trigger] links[k]) == l && protocol_of(l) == p;
                assert(0 <= k < n && clean_link(links[k]) == l);
            } else {
                assert(clean_link(links[n - 1]) == l);
            }
        }
    }
}

/// An unknown post that is not older than the days to look back adds every link it
/// holds, cleaned, under the protocol of the link, and the count grows by their
/// number; what was gathered stays, and nothing else is added.
pub proof fn recent_posts_are_gathered(
    v: ScanView,
    p: PostView,
    now: Timestamp,
    days: int,
    proto: Seq<char>,
    l: Seq<char>,
)
    requires
        v.known is None || p.id == 0 || p.id > v.known->0,
        p.date is None || (days >= 0 && (p.date->0.secs > now.secs - 86400 * days || (p.date->0.secs
            == now.secs - 86400 * days && p.date->0.nanos >= now.nanos))),
    ensures
        links_under(with_post(v, p, now, days).gathered, proto).contains(l) <==> links_under(
            v.gathered,
            proto,
        ).contains(l) || exists|k: int|
            0 <= k < p.links.len() && clean_link(#[trigger] p.links[k]) == l && protocol_of(l)
                == proto,
        v.found + p.links.len() <= usize::MAX ==> with_post(v, p, now, days).found == v.found
            + p.links.len(),
        !v.hit_known ==> !with_post(v, p, now, days).hit_known,
{
    lemma_found_links(v.gathered, p.links, p.links.len() as int, proto, l);
}

/// A post older than the days to look back adds nothing.
pub proof fn old_posts_are_left_out(v: ScanView, p: PostView, now: Timestamp, days: int)
    requires
        p.date is Some,
        days >= 0,
        p.date->0.secs < now.secs - 86400 * days || (p.date->0.secs == now.secs - 86400 * days
            && p.date->0.nanos < now.nanos),
    ensures
        with_post(v, p, now, days).gathered == v.gathered,
        with_post(v, p, now, days).found == v.found,
{
}

/// The highest post that was seen is remembered, whether its links are taken or
/// not, and is never forgotten while a channel is read.
pub proof fn highest_post_is_seen(v: ScanView, p: PostView, now: Timestamp, days: int)
    ensures
        with_post(v, p, now, days).highest >= v.highest,
        with_post(v, p, now, days).highest >= p.id,
        with_post(v, p, now, days).highest == v.highest || with_post(v, p, now, days).highest
            == p.id,
        with_post(v, p, now, days).channel == v.channel,
        with_post(v, p, now, days).known == v.known,
        with_post(v, p, now, days).before == v.before,
{
}

/// A post is known where its number is not above the highest that is remembered,
/// and a post without a number never is.
pub proof fn known_posts_end_the_reading(
    v: ScanView,
    p: PostView,
    now: Timestamp,
    days: int,
    known: u64,
)
    requires
        v.known == Some(known),
        1 <= p.id <= known,
    ensures
        with_post(v, p, now, days).hit_known,
        with_post(v, p, now, days).gathered == v.gathered,
        with_post(v, p, now, days).found == v.found,
{
}

/// A page is read after another exactly where no known post was met, a next page
/// is named and the page brought a link; each page counts.
pub proof fn reading_goes_on_while_links_come(
    v: ScanView,
    ps: Seq<PostView>,
    next: Option<Seq<char>>,
    now: Timestamp,
    days: int,
)
    ensures
        ({
            let after = with_page(v, ps, next, now, days);
            &&& goes_on(v, after) ==> next is Some && !after.hit_known && after.found > v.found
            &&& next is Some && !after.hit_known && after.found > v.found ==> goes_on(v, after)
            &&& after.before == next
            &&& v.pages < usize::MAX ==> after.pages == v.pages + 1
        }),
{
}

/// Limits keep the first links in order, as many as they allow, and all where there
/// are no more or no limit is set.
pub proof fn limits_keep_the_first(
    data: Map<Seq<char>, Set<Seq<char>>>,
    rules: Map<Seq<char>, ProtocolRule>,
    p: Seq<char>,
)
    requires
        data.contains_key(p),
        data[p].finite(),
    ensures
        limited(data, rules).dom() == data.dom(),
        !rules.contains_key(p) || rules[p].max_count == 0 || data[p].len() <= rules[p].max_count
            ==> limited(data, rules)[p] == data[p],
        rules.contains_key(p) && 0 < rules[p].max_count < data[p].len() ==> limited(data, rules)[p]
            == listing(data[p]).take(rules[p].max_count as int).to_set() && limited(
            data,
            rules,
        )[p].len() == rules[p].max_count,
{
    assert(limited(data, rules).dom() =~= data.dom());
    listing_holds_the_members(data[p]);
    let all = listing(data[p]);
    if rules.contains_key(p) && 0 < rules[p].max_count < all.len() {
        let some = all.take(rules[p].max_count as int);
        assert(ascending(some));
        listing_of_ascending(some);
    }
}

/// What was gathered from two channels is what either of them has.
pub proof fn gathered_links_are_joined(
    m: Map<Seq<char>, Set<Seq<char>>>,
    more: Map<Seq<char>, Set<Seq<char>>>,
    p: Seq<char>,
    l: Seq<char>,
)
    ensures
        links_under(joined_stores(m, more), p).contains(l) <==> links_under(m, p).contains(l)
            || links_under(more, p).contains(l),
{
}

/// A channel is remembered under its name without the at sign, so that reading it
/// again finds what was remembered.
pub proof fn channels_are_remembered_by_name(name: Seq<char>)
    requires
        name.len() > 0 ==> name[0] != '@',
    ensures
        memory_name(name) == lowercase(name),
        memory_name("@"@ + name) == memory_name(name),
{
    reveal_strlit("@");
    let s = "@"@ + name;
    assert(AT_SIGN@[0] == '@');
    assert(AT_SIGN@.contains('@'));
    if name.len() > 0 && AT_SIGN@.contains(name[0]) {
        let k = AT_SIGN@.index_of(name[0]);
        assert(AT_SIGN@[k] == name[0]);
    }
    assert(name.skip(0) =~= name);
    if name.len() > 0 {
        assert(s[1] == name[0]);
    }
    assert(lead(s, AT_SIGN@, 1) == 1);
    assert(s.skip(1) =~= name);
}

} // verus!
