//! Turning tested links into configurations for Clash.

use vstd::prelude::*;

use crate::collections::{
    listing, listing_holds_the_members, listing_of_ascending, TextMap, TextSet,
};
use crate::config::{ClashConverterConfig, ClashProtocolRule};
use crate::json::{
    json_members, json_written, new_object, no_members, put_bool, put_object, put_text, put_whole,
    write_object, Json, Members,
};
use crate::links::{
    is_valid, or_else, parse_proxy, protocol_name, proxy_in, valid, Protocol, Proxy,
    ProxyView, RealityView,
};
use crate::numbers::{decimal, decimal_is_digits, decimal_reads_back, decimal_text};
use crate::order::{
    arrange, arranged, arrangement, arrangement_is_stable, is_stable_order, numbers, positions,
};
use crate::outside::{to_uppercase, uppercase};
use crate::scraper::{log_worker, says, AppEvent, LogLevel};
use crate::template::{GROUPS_BALANCE, GROUPS_FOOT, GROUPS_HEAD, GROUPS_TEST, HEAD};
use crate::text::{
    concat, join, joined, opt_text, push_text, texts, trim, trim_end_of, trimmed, trimmed_end,
};

verus! {

/// What a list of proxies holds.
pub open spec fn proxies_in(v: Seq<Proxy>) -> Seq<ProxyView> {
    Seq::new(v.len(), |i: int| v[i]@)
}

// ---------------------------------------------------------------------------
// Rules
// ---------------------------------------------------------------------------

/// The rule for a protocol.
pub open spec fn rule_for(rules: Map<Seq<char>, ClashProtocolRule>, p: Protocol) -> Option<
    ClashProtocolRule,
> {
    if rules.contains_key(protocol_name(p)) {
        Some(rules[protocol_name(p)])
    } else {
        None
    }
}

/// How early the proxies of a protocol come; late where there is no rule.
pub open spec fn priority_of(rules: Map<Seq<char>, ClashProtocolRule>, p: Protocol) -> int {
    match rule_for(rules, p) {
        Some(r) => r.priority as int,
        None => 999,
    }
}

/// The priorities of proxies.
pub open spec fn priorities(rules: Map<Seq<char>, ClashProtocolRule>, ps: Seq<ProxyView>) -> Seq<
    int,
> {
    Seq::new(ps.len(), |i: int| priority_of(rules, ps[i].protocol))
}

/// How many of the proxies speak a protocol.
pub open spec fn count_protocol(ps: Seq<ProxyView>, p: Protocol) -> nat
    decreases ps.len(),
{
    if ps.len() == 0 {
        0
    } else {
        count_protocol(ps.drop_last(), p) + (if ps.last().protocol == p {
            1nat
        } else {
            0nat
        })
    }
}

/// There is room for one more proxy of a protocol behind `kept`.
pub open spec fn has_room(
    rules: Map<Seq<char>, ClashProtocolRule>,
    kept: Seq<ProxyView>,
    p: Protocol,
) -> bool {
    match rule_for(rules, p) {
        Some(r) => r.enabled && (r.max_count == 0 || count_protocol(kept, p) < r.max_count),
        None => false,
    }
}

/// Those of the first `n` proxies that the rules let pass, as long as there
/// are fewer than `limit`; zero is no limit.
pub open spec fn admitted(
    rules: Map<Seq<char>, ClashProtocolRule>,
    limit: int,
    ps: Seq<ProxyView>,
    n: int,
) -> Seq<ProxyView>
    decreases n,
{
    if n <= 0 {
        Seq::empty()
    } else {
        let kept = admitted(rules, limit, ps, n - 1);
        if limit > 0 && kept.len() >= limit {
            kept
        } else if has_room(rules, kept, ps[n - 1].protocol) {
            kept.push(ps[n - 1])
        } else {
            kept
        }
    }
}

/// The proxies that the rules let pass, in the order of their priorities.
pub open spec fn selected(
    rules: Map<Seq<char>, ClashProtocolRule>,
    limit: int,
    ps: Seq<ProxyView>,
) -> Seq<ProxyView> {
    let sorted = arranged(ps, priorities(rules, ps));
    admitted(rules, limit, sorted, sorted.len() as int)
}

fn find_priority(rules: &TextMap<ClashProtocolRule>, p: Protocol) -> (r: u128)
    ensures
        r == priority_of(rules@, p),
{
    match rules.get(p.name()) {
        Some(rule) => rule.priority as u128,
        None => 999,
    }
}

fn sort_proxies(proxies: &Vec<Proxy>, rules: &TextMap<ClashProtocolRule>) -> (r: Vec<Proxy>)
    ensures
        proxies_in(r@) == arranged(proxies_in(proxies@), priorities(rules@, proxies_in(proxies@))),
{
    let ghost ps = proxies_in(proxies@);
    let ghost want = priorities(rules@, ps);
    let mut keys: Vec<u128> = Vec::new();
    for i in 0..proxies.len()
        invariant
            ps == proxies_in(proxies@),
            want == priorities(rules@, ps),
            keys@.len() == i,
            numbers(keys@) == want.take(i as int),
    {
        let ghost before = keys@;
        let k = find_priority(rules, proxies[i].protocol);
        keys.push(k);
        assert(numbers(keys@) =~= numbers(before).push(want[i as int]));
        assert(want.take(i + 1) =~= want.take(i as int).push(want[i as int]));
    }
    assert(want.take(ps.len() as int) =~= want);
    let order = arrange(&keys);
    let mut out: Vec<Proxy> = Vec::new();
    let ghost all = arranged(ps, want);
    for i in 0..order.len()
        invariant
            ps == proxies_in(proxies@),
            keys@.len() == proxies@.len(),
            order@.len() == proxies@.len(),
            numbers(keys@) == want,
            all == arranged(ps, want),
            positions(order@) == arrangement(want),
            is_stable_order(positions(order@), want),
            proxies_in(out@) == all.take(i as int),
    {
        let ghost before = out@;
        let at: usize = order[i];
        assert(positions(order@)[i as int] == at);
        out.push(proxies[at].clone());
        assert(proxies_in(out@) =~= proxies_in(before).push(all[i as int]));
        assert(all.take(i + 1) =~= all.take(i as int).push(all[i as int]));
    }
    assert(all.take(order@.len() as int) =~= all);
    out
}

fn count_in(kept: &Vec<Proxy>, p: Protocol) -> (r: usize)
    ensures
        r == count_protocol(proxies_in(kept@), p),
{
    let ghost ps = proxies_in(kept@);
    let mut n: usize = 0;
    assert(ps.take(0) =~= Seq::<ProxyView>::empty());
    for i in 0..kept.len()
        invariant
            ps == proxies_in(kept@),
            n <= i,
            n == count_protocol(ps.take(i as int), p),
    {
        assert(ps.take(i + 1).drop_last() =~= ps.take(i as int));
        if kept[i].protocol == p {
            n += 1;
        }
    }
    assert(ps.take(ps.len() as int) =~= ps);
    n
}

fn has_room_for(kept: &Vec<Proxy>, rules: &TextMap<ClashProtocolRule>, p: Protocol) -> (r: bool)
    ensures
        r == has_room(rules@, proxies_in(kept@), p),
{
    match rules.get(p.name()) {
        Some(rule) => rule.enabled && (rule.max_count == 0 || count_in(kept, p) < rule.max_count),
        None => false,
    }
}

fn select_proxies(proxies: &Vec<Proxy>, cfg: &ClashConverterConfig) -> (r: Vec<Proxy>)
    ensures
        proxies_in(r@) == selected(
            cfg.protocol_rules@,
            cfg.total_limit as int,
            proxies_in(proxies@),
        ),
{
    let sorted = sort_proxies(proxies, &cfg.protocol_rules);
    let ghost ps = proxies_in(sorted@);
    let ghost rules = cfg.protocol_rules@;
    let ghost limit = cfg.total_limit as int;
    let mut out: Vec<Proxy> = Vec::new();
    assert(proxies_in(out@) =~= Seq::<ProxyView>::empty());
    for i in 0..sorted.len()
        invariant
            ps == proxies_in(sorted@),
            rules == cfg.protocol_rules@,
            limit == cfg.total_limit,
            proxies_in(out@) == admitted(rules, limit, ps, i as int),
    {
        let full = cfg.total_limit > 0 && out.len() >= cfg.total_limit;
        assert(proxies_in(out@).len() == out@.len());
        if !full && has_room_for(&out, &cfg.protocol_rules, sorted[i].protocol) {
            let ghost before = out@;
            out.push(sorted[i].clone());
            assert(proxies_in(out@) =~= proxies_in(before).push(ps[i as int]));
        }
    }
    out
}

// ---------------------------------------------------------------------------
// Names
// ---------------------------------------------------------------------------

/// What a name does not end with.
pub const NAME_TAIL: [char; 2] = ['|', ' '];

/// The name of a proxy, or else that of its protocol in capitals, without bars
/// and blanks at its end.
pub open spec fn base_name(p: ProxyView) -> Seq<char> {
    let name = trimmed(p.name);
    let named = if name.len() > 0 {
        name
    } else {
        uppercase(protocol_name(p.protocol))
    };
    trimmed(trimmed_end(named, NAME_TAIL@))
}

/// The names of proxies before they are told apart.
pub open spec fn base_names(ps: Seq<ProxyView>) -> Seq<Seq<char>> {
    Seq::new(ps.len(), |i: int| base_name(ps[i]))
}

/// How many of the first `n` names are `name`.
pub open spec fn uses(names: Seq<Seq<char>>, name: Seq<char>, n: int) -> nat
    decreases n,
{
    if n <= 0 {
        0
    } else {
        uses(names, name, n - 1) + (if names[n - 1] == name {
            1nat
        } else {
            0nat
        })
    }
}

/// A name with a number behind it.
pub open spec fn numbered(name: Seq<char>, n: nat) -> Seq<char> {
    name + "-"@ + decimal(n)
}

/// The name at position `i`, with the number of times it stood before where it
/// did.
pub open spec fn title(names: Seq<Seq<char>>, i: int) -> Seq<char> {
    let n = uses(names, names[i], i);
    if n == 0 {
        names[i]
    } else {
        numbered(names[i], n)
    }
}

/// The proxies under the names that tell them apart.
pub open spec fn titled(ps: Seq<ProxyView>) -> Seq<ProxyView> {
    Seq::new(ps.len(), |i: int| ProxyView { name: title(base_names(ps), i), ..ps[i] })
}

fn find_base_name(p: &Proxy) -> (r: String)
    ensures
        r@ == base_name(p@),
{
    let name = trim(&p.name);
    let named = if name.as_str().is_empty() {
        to_uppercase(p.protocol.name())
    } else {
        name
    };
    trim(&trim_end_of(&named, &NAME_TAIL))
}

fn give_titles(proxies: Vec<Proxy>) -> (r: Vec<Proxy>)
    ensures
        proxies_in(r@) == titled(proxies_in(proxies@)),
{
    let ghost ps = proxies_in(proxies@);
    let ghost names = base_names(ps);
    let mut seen: TextMap<usize> = TextMap::new();
    let mut out: Vec<Proxy> = Vec::new();
    for i in 0..proxies.len()
        invariant
            ps == proxies_in(proxies@),
            names == base_names(ps),
            forall|k: Seq<char>| #[trigger]
                seen@.contains_key(k) <==> uses(names, k, i as int) > 0,
            forall|k: Seq<char>| #[trigger]
                seen@.contains_key(k) ==> seen@[k] + 1 == uses(names, k, i as int) && seen@[k] < i,
            proxies_in(out@) == titled(ps).take(i as int),
    {
        let ghost before = out@;
        let ghost held = seen@;
        let base = find_base_name(&proxies[i]);
        assert(base@ == names[i as int]);
        let count: usize = match seen.get(&base) {
            Some(n) => *n + 1,
            None => 0,
        };
        let name = if count > 0 {
            let mut n = concat(&base, "-");
            push_text(&mut n, &decimal_text(count as u128));
            n
        } else {
            base.clone()
        };
        seen.insert(base, count);
        let mut p = proxies[i].clone();
        p.name = name;
        out.push(p);
        proof {
            assert(count == uses(names, names[i as int], i as int));
            assert(name@ == title(names, i as int));
            assert forall|k: Seq<char>| #[trigger] seen@.contains_key(k) <==> uses(
                names,
                k,
                i + 1,
            ) > 0 by {
                assert(held.contains_key(k) <==> uses(names, k, i as int) > 0);
            }
            assert forall|k: Seq<char>| #[trigger] seen@.contains_key(k) implies seen@[k] + 1
                == uses(names, k, i + 1) && seen@[k] < i + 1 by {
                if k != names[i as int] {
                    assert(held.contains_key(k));
                }
            }
            assert(proxies_in(out@) =~= proxies_in(before).push(titled(ps)[i as int]));
            assert(titled(ps).take(i + 1) =~= titled(ps).take(i as int).push(titled(ps)[i as int]));
        }
    }
    assert(titled(ps).take(ps.len() as int) =~= titled(ps));
    out
}

/// The proxies that the rules let pass, in the order of their priorities and
/// under names that tell them apart.
pub fn apply_phase4_rules(proxies: Vec<Proxy>, cfg: &ClashConverterConfig) -> (r: Vec<Proxy>)
    ensures
        proxies_in(r@) == titled(
            selected(cfg.protocol_rules@, cfg.total_limit as int, proxies_in(proxies@)),
        ),
{
    give_titles(select_proxies(&proxies, cfg))
}

// ---------------------------------------------------------------------------
// Documents
// ---------------------------------------------------------------------------

/// `m`, and the text under `key` where there is one.
pub open spec fn with_text(m: Members, key: Seq<char>, v: Option<Seq<char>>) -> Members {
    match v {
        Some(t) => m.insert(key, Json::Text(t)),
        None => m,
    }
}

/// The members of the object that keys are written as.
pub open spec fn reality_members(r: RealityView) -> Members {
    with_text(
        no_members().insert("public-key"@, Json::Text(r.public_key)),
        "short-id"@,
        r.short_id,
    )
}

/// The members of the object that a proxy is written as.
pub open spec fn members(p: ProxyView) -> Members {
    let place = no_members().insert("name"@, Json::Text(p.name)).insert(
        "type"@,
        Json::Text(protocol_name(p.protocol)),
    ).insert("server"@, Json::Text(p.server)).insert("port"@, Json::Whole(p.port as u64)).insert(
        "udp"@,
        Json::Bool(true),
    );
    let user = with_text(
        with_text(with_text(place, "uuid"@, p.uuid), "password"@, p.password),
        "cipher"@,
        p.cipher,
    );
    let aid = match p.alter_id {
        Some(n) => user.insert("alterId"@, Json::Whole(n as u64)),
        None => user,
    };
    let tls = match p.tls {
        Some(b) => aid.insert("tls"@, Json::Bool(b)),
        None => aid,
    };
    let wire = with_text(
        with_text(
            with_text(with_text(tls, "network"@, p.network), "servername"@, p.servername),
            "client-fingerprint"@,
            p.client_fingerprint,
        ),
        "sni"@,
        p.sni,
    );
    match p.reality {
        Some(r) => wire.insert("reality-opts"@, Json::Object(reality_members(r))),
        None => wire,
    }
}

fn put_opt(
    m: &mut serde_json::Map<String, serde_json::Value>,
    key: &str,
    value: &Option<String>,
)
    ensures
        json_members(*final(m)) == with_text(json_members(*old(m)), key@, opt_text(*value)),
{
    match value {
        Some(t) => put_text(m, key, t),
        None => {},
    }
}

fn object_of(p: &Proxy) -> (r: serde_json::Map<String, serde_json::Value>)
    ensures
        json_members(r) == members(p@),
{
    let mut m = new_object();
    put_text(&mut m, "name", &p.name);
    put_text(&mut m, "type", p.protocol.name());
    put_text(&mut m, "server", &p.server);
    put_whole(&mut m, "port", p.port as u64);
    put_bool(&mut m, "udp", true);
    put_opt(&mut m, "uuid", &p.uuid);
    put_opt(&mut m, "password", &p.password);
    put_opt(&mut m, "cipher", &p.cipher);
    match p.alter_id {
        Some(n) => put_whole(&mut m, "alterId", n as u64),
        None => {},
    }
    match p.tls {
        Some(b) => put_bool(&mut m, "tls", b),
        None => {},
    }
    put_opt(&mut m, "network", &p.network);
    put_opt(&mut m, "servername", &p.servername);
    put_opt(&mut m, "client-fingerprint", &p.client_fingerprint);
    put_opt(&mut m, "sni", &p.sni);
    match &p.reality {
        Some(k) => {
            let mut keys = new_object();
            put_text(&mut keys, "public-key", &k.public_key);
            put_opt(&mut keys, "short-id", &k.short_id);
            put_object(&mut m, "reality-opts", keys);
        },
        None => {},
    }
    m
}

/// A proxy as an object, or else `other`.
pub open spec fn proxy_text(p: ProxyView, other: Seq<char>) -> Seq<char> {
    or_else(json_written(members(p)), other)
}

fn write_proxy(p: &Proxy, other: &str) -> (r: String)
    ensures
        r@ == proxy_text(p@, other@),
{
    match write_object(&object_of(p)) {
        Some(t) => t,
        None => other.to_string(),
    }
}

/// The text of a configuration without proxies.
pub const NO_PROXIES: &'static str = "proxies: []\n";

/// The lines of a list of proxies.
pub open spec fn provider_lines(ps: Seq<ProxyView>) -> Seq<Seq<char>> {
    Seq::new(ps.len(), |i: int| "  - "@ + proxy_text(ps[i], "{}"@))
}

/// A list of proxies.
pub open spec fn provider(ps: Seq<ProxyView>) -> Seq<char> {
    if ps.len() == 0 {
        NO_PROXIES@
    } else {
        "proxies:\n"@ + joined(provider_lines(ps), "\n"@) + "\n"@
    }
}

/// A list of proxies.
pub fn build_provider(proxies: &Vec<Proxy>) -> (r: String)
    ensures
        r@ == provider(proxies_in(proxies@)),
{
    if proxies.len() == 0 {
        return NO_PROXIES.to_string();
    }
    let ghost ps = proxies_in(proxies@);
    let ghost all = provider_lines(ps);
    let mut lines: Vec<String> = Vec::new();
    for i in 0..proxies.len()
        invariant
            ps == proxies_in(proxies@),
            all == provider_lines(ps),
            texts(lines@) == all.take(i as int),
    {
        let ghost before = lines@;
        let line = concat("  - ", &write_proxy(&proxies[i], "{}"));
        lines.push(line);
        assert(texts(lines@) =~= texts(before).push(all[i as int]));
        assert(all.take(i + 1) =~= all.take(i as int).push(all[i as int]));
    }
    assert(all.take(ps.len() as int) =~= all);
    let mut out = "proxies:\n".to_string();
    push_text(&mut out, &join(&lines, "\n"));
    push_text(&mut out, "\n");
    out
}

/// The first `n` proxies, a line each.
pub open spec fn proxy_lines(ps: Seq<ProxyView>, n: int) -> Seq<char>
    decreases n,
{
    if n <= 0 {
        Seq::empty()
    } else {
        proxy_lines(ps, n - 1) + ("  - "@ + proxy_text(ps[n - 1], ""@) + "\n"@)
    }
}

/// The names of the first `n` proxies, a line each.
pub open spec fn name_lines(ps: Seq<ProxyView>, n: int) -> Seq<char>
    decreases n,
{
    if n <= 0 {
        Seq::empty()
    } else {
        name_lines(ps, n - 1) + ("      - \""@ + ps[n - 1].name + "\"\n"@)
    }
}

/// A configuration that stands on its own: the proxies, and groups in which
/// all of them can be chosen.
pub open spec fn full_config(ps: Seq<ProxyView>) -> Seq<char> {
    let names = name_lines(ps, ps.len() as int);
    if ps.len() == 0 {
        NO_PROXIES@
    } else {
        HEAD@ + "\nproxies:\n"@ + proxy_lines(ps, ps.len() as int) + "\n"@ + GROUPS_HEAD@ + names
            + "\n"@ + GROUPS_TEST@ + names + "\n"@ + GROUPS_BALANCE@ + names + "\n"@
            + GROUPS_FOOT@
    }
}

fn list_proxies(proxies: &Vec<Proxy>) -> (r: String)
    ensures
        r@ == proxy_lines(proxies_in(proxies@), proxies@.len() as int),
{
    let ghost ps = proxies_in(proxies@);
    let mut out = String::new();
    for i in 0..proxies.len()
        invariant
            ps == proxies_in(proxies@),
            out@ == proxy_lines(ps, i as int),
    {
        let mut line = "  - ".to_string();
        push_text(&mut line, &write_proxy(&proxies[i], ""));
        push_text(&mut line, "\n");
        push_text(&mut out, &line);
    }
    out
}

fn list_names(proxies: &Vec<Proxy>) -> (r: String)
    ensures
        r@ == name_lines(proxies_in(proxies@), proxies@.len() as int),
{
    let ghost ps = proxies_in(proxies@);
    let mut out = String::new();
    for i in 0..proxies.len()
        invariant
            ps == proxies_in(proxies@),
            out@ == name_lines(ps, i as int),
    {
        let mut line = "      - \"".to_string();
        push_text(&mut line, &proxies[i].name);
        push_text(&mut line, "\"\n");
        push_text(&mut out, &line);
    }
    out
}

/// A configuration that stands on its own.
pub fn build_full_config(proxies: &Vec<Proxy>) -> (r: String)
    ensures
        r@ == full_config(proxies_in(proxies@)),
{
    if proxies.len() == 0 {
        return NO_PROXIES.to_string();
    }
    assert(proxies_in(proxies@).len() == proxies@.len());
    let names = list_names(proxies);
    let mut out = HEAD.to_string();
    push_text(&mut out, "\nproxies:\n");
    push_text(&mut out, &list_proxies(proxies));
    push_text(&mut out, "\n");
    push_text(&mut out, GROUPS_HEAD);
    push_text(&mut out, &names);
    push_text(&mut out, "\n");
    push_text(&mut out, GROUPS_TEST);
    push_text(&mut out, &names);
    push_text(&mut out, "\n");
    push_text(&mut out, GROUPS_BALANCE);
    push_text(&mut out, &names);
    push_text(&mut out, "\n");
    push_text(&mut out, GROUPS_FOOT);
    out
}

// ---------------------------------------------------------------------------
// Conversion
// ---------------------------------------------------------------------------

/// What tells one proxy from another: protocol, server, port and key.
pub open spec fn fingerprint(p: ProxyView) -> Seq<char> {
    protocol_name(p.protocol) + "|"@ + p.server + "|"@ + decimal(p.port as nat) + "|"@ + (
    match p.uuid {
        Some(u) => u,
        None => or_else(p.password, ""@),
    })
}

fn make_fingerprint(p: &Proxy) -> (r: String)
    ensures
        r@ == fingerprint(p@),
{
    let mut out = p.protocol.name().to_string();
    push_text(&mut out, "|");
    push_text(&mut out, &p.server);
    push_text(&mut out, "|");
    push_text(&mut out, &decimal_text(p.port as u128));
    push_text(&mut out, "|");
    match &p.uuid {
        Some(u) => push_text(&mut out, u),
        None => match &p.password {
            Some(w) => push_text(&mut out, w),
            None => push_text(&mut out, ""),
        },
    }
    out
}

/// The proxies that a map holds.
pub open spec fn proxy_map(m: Map<Seq<char>, Proxy>) -> Map<Seq<char>, ProxyView> {
    Map::new(|k: Seq<char>| m.contains_key(k), |k: Seq<char>| m[k]@)
}

/// The valid proxies of the first `n` links by their fingerprints, the first
/// one of equals.
pub open spec fn unique_from(lines: Seq<Seq<char>>, n: int) -> Map<Seq<char>, ProxyView>
    decreases n,
{
    if n <= 0 {
        Map::empty()
    } else {
        let found = unique_from(lines, n - 1);
        match proxy_in(lines[n - 1]) {
            Some(p) => if is_valid(p) && !found.contains_key(fingerprint(p)) {
                found.insert(fingerprint(p), p)
            } else {
                found
            },
            None => found,
        }
    }
}

/// The values of a map in the order of its keys.
pub open spec fn values_in_order(m: Map<Seq<char>, ProxyView>) -> Seq<ProxyView> {
    let keys = listing(m.dom());
    Seq::new(keys.len(), |i: int| m[keys[i]])
}

/// The proxies that links spell, each once.
pub open spec fn unique_proxies(links: Set<Seq<char>>) -> Seq<ProxyView> {
    values_in_order(unique_from(listing(links), listing(links).len() as int))
}

fn collect_proxies(input: &TextSet) -> (r: Vec<Proxy>)
    ensures
        proxies_in(r@) == unique_proxies(input@),
{
    let lines = input.to_vec();
    let ghost list = listing(input@);
    let mut unique: TextMap<Proxy> = TextMap::new();
    assert(proxy_map(unique@) =~= unique_from(list, 0));
    assert(texts(lines@).len() == lines@.len());
    for i in 0..lines.len()
        invariant
            texts(lines@) == list,
            proxy_map(unique@) == unique_from(list, i as int),
    {
        assert(list[i as int] == lines@[i as int]@);
        match parse_proxy(&lines[i]) {
            Some(p) => {
                if valid(&p) {
                    let key = make_fingerprint(&p);
                    let ghost before = unique@;
                    assert(proxy_map(before).contains_key(key@) == before.contains_key(key@));
                    if !unique.contains_key(&key) {
                        let ghost k = key@;
                        let ghost v = p@;
                        unique.insert(key, p);
                        assert(proxy_map(unique@) =~= proxy_map(before).insert(k, v));
                    }
                }
            },
            None => {},
        }
    }
    let ghost m = proxy_map(unique@);
    let ghost keys = listing(unique@.dom());
    assert(m.dom() =~= unique@.dom());
    let n: usize = unique.len();
    let mut out: Vec<Proxy> = Vec::new();
    for i in 0..n
        invariant
            m == proxy_map(unique@),
            keys == listing(unique@.dom()),
            m.dom() == unique@.dom(),
            n == keys.len(),
            proxies_in(out@) == values_in_order(m).take(i as int),
    {
        let ghost before = out@;
        out.push(unique.value(i).clone());
        let ghost all = values_in_order(m);
        assert(proxies_in(out@) =~= proxies_in(before).push(all[i as int]));
        assert(all.take(i + 1) =~= all.take(i as int).push(all[i as int]));
    }
    assert(values_in_order(m).take(n as int) =~= values_in_order(m));
    out
}

/// A file to write.
#[derive(Debug)]
pub struct ClashFile {
    pub name: String,
    pub text: String,
}

impl View for ClashFile {
    type V = (Seq<char>, Seq<char>);

    open spec fn view(&self) -> (Seq<char>, Seq<char>) {
        (self.name@, self.text@)
    }
}

/// The configuration of a list of links, and the name of its file.
pub open spec fn converted(
    name: Seq<char>,
    links: Set<Seq<char>>,
    rules: Map<Seq<char>, ClashProtocolRule>,
    limit: int,
    full: bool,
) -> (Seq<char>, Seq<char>) {
    let ps = titled(selected(rules, limit, unique_proxies(links)));
    if full {
        (name + "_config.yaml"@, full_config(ps))
    } else {
        (name + "_provider.yaml"@, provider(ps))
    }
}

/// The configuration of a list of links, as the settings ask for it.
pub open spec fn converted_by(cfg: ClashConverterConfig, name: Seq<char>, links: Set<Seq<char>>) -> (
    Seq<char>,
    Seq<char>,
) {
    converted(
        name,
        links,
        cfg.protocol_rules@,
        cfg.total_limit as int,
        cfg.output_full_config,
    )
}

/// The configuration of a list of links, and the name of its file.
pub fn convert_set(name: &str, input: &TextSet, cfg: &ClashConverterConfig) -> (r: ClashFile)
    ensures
        r@ == converted_by(*cfg, name@, input@),
{
    let proxies = apply_phase4_rules(collect_proxies(input), cfg);
    if cfg.output_full_config {
        ClashFile { name: concat(name, "_config.yaml"), text: build_full_config(&proxies) }
    } else {
        ClashFile { name: concat(name, "_provider.yaml"), text: build_provider(&proxies) }
    }
}

/// What a list of files holds.
pub open spec fn clash_files(v: Seq<ClashFile>) -> Seq<(Seq<char>, Seq<char>)> {
    Seq::new(v.len(), |i: int| v[i]@)
}

/// The configurations of the tested links, in the order in which they are
/// written; none where the conversion is off.
pub fn convert_tested_to_clash(
    mixed: &TextSet,
    ping: &TextSet,
    speed: &TextSet,
    cfg: &ClashConverterConfig,
) -> (r: Vec<ClashFile>)
    ensures
        clash_files(r@) == (if cfg.enabled {
            seq![
                converted_by(*cfg, "ping"@, ping@),
                converted_by(*cfg, "speed"@, speed@),
                converted_by(*cfg, "mixed"@, mixed@),
            ]
        } else {
            Seq::empty()
        }),
{
    let mut out: Vec<ClashFile> = Vec::new();
    if cfg.enabled {
        out.push(convert_set("ping", ping, cfg));
        out.push(convert_set("speed", speed, cfg));
        out.push(convert_set("mixed", mixed, cfg));
        assert(clash_files(out@) =~= seq![
            converted_by(*cfg, "ping"@, ping@),
            converted_by(*cfg, "speed"@, speed@),
            converted_by(*cfg, "mixed"@, mixed@),
        ]);
    } else {
        assert(clash_files(out@) =~= Seq::<(Seq<char>, Seq<char>)>::empty());
    }
    out
}

// ---------------------------------------------------------------------------
// Reports
// ---------------------------------------------------------------------------

/// The message that the conversion begins, with the sizes of the three lists.
pub fn converting_event(ping: usize, speed: usize, mixed: usize) -> (r: AppEvent)
    ensures
        says(
            r,
            LogLevel::Info,
            "🧩 PHASE 3 START | ping="@ + decimal(ping as nat) + " speed="@ + decimal(speed as nat)
                + " mixed="@ + decimal(mixed as nat),
        ),
{
    let mut text = "🧩 PHASE 3 START | ping=".to_string();
    push_text(&mut text, &decimal_text(ping as u128));
    push_text(&mut text, " speed=");
    push_text(&mut text, &decimal_text(speed as u128));
    push_text(&mut text, " mixed=");
    push_text(&mut text, &decimal_text(mixed as u128));
    log_worker(LogLevel::Info, text)
}

/// The message that a list was converted into the file at `path`.
pub fn converted_event(name: &str, path: &str) -> (r: AppEvent)
    ensures
        says(
            r,
            LogLevel::Success,
            "✅ PHASE 3 "@ + name@ + " -> "@ + path@,
        ),
{
    let mut text = "✅ PHASE 3 ".to_string();
    push_text(&mut text, name);
    push_text(&mut text, " -> ");
    push_text(&mut text, path);
    log_worker(LogLevel::Success, text)
}

// ---------------------------------------------------------------------------
// Laws
// ---------------------------------------------------------------------------

/// `kept` obeys the rules: each proxy has a rule that is on, none of the
/// limits is passed, and no proxy stands behind one of a later priority.
pub open spec fn obeys(
    rules: Map<Seq<char>, ClashProtocolRule>,
    limit: int,
    kept: Seq<ProxyView>,
) -> bool {
    &&& limit > 0 ==> kept.len() <= limit
    &&& forall|i: int|
        0 <= i < kept.len() ==> (rule_for(rules, (#[trigger] kept[i]).protocol) matches Some(r)
            && r.enabled)
    &&& forall|p: Protocol| #[trigger]
        count_protocol(kept, p) == 0 || (rule_for(rules, p) matches Some(r) && (r.max_count == 0
            || count_protocol(kept, p) <= r.max_count))
    &&& forall|i: int, j: int|
        0 <= i < j < kept.len() ==> priority_of(rules, (#[trigger] kept[i]).protocol)
            <= priority_of(rules, (#[trigger] kept[j]).protocol)
}

proof fn lemma_admitted(
    rules: Map<Seq<char>, ClashProtocolRule>,
    limit: int,
    ps: Seq<ProxyView>,
    n: int,
)
    requires
        0 <= n <= ps.len(),
        forall|a: int, b: int|
            0 <= a < b < ps.len() ==> priority_of(rules, (#[trigger] ps[a]).protocol)
                <= priority_of(rules, (#[trigger] ps[b]).protocol),
    ensures
        obeys(rules, limit, admitted(rules, limit, ps, n)),
        forall|i: int|
            0 <= i < admitted(rules, limit, ps, n).len() ==> ps.take(n).contains(
                #[trigger] admitted(rules, limit, ps, n)[i],
            ),
    decreases n,
{
    if n > 0 {
        lemma_admitted(rules, limit, ps, n - 1);
        let kept = admitted(rules, limit, ps, n - 1);
        let now = admitted(rules, limit, ps, n);
        let x = ps[n - 1];
        assert forall|i: int| 0 <= i < now.len() implies ps.take(n).contains(#[trigger] now[i]) by {
            if i < kept.len() {
                assert(now[i] == kept[i]);
                let k = ps.take(n - 1).index_of(kept[i]);
                assert(ps.take(n)[k] == kept[i]);
            } else {
                assert(ps.take(n)[n - 1] == x);
            }
        }
        if now != kept {
            assert(now == kept.push(x));
            assert(now.drop_last() =~= kept);
            assert forall|i: int, j: int| 0 <= i < j < now.len() implies priority_of(
                rules,
                (#[trigger] now[i]).protocol,
            ) <= priority_of(rules, (#[trigger] now[j]).protocol) by {
                assert(now[i] == kept[i]);
                if j == kept.len() {
                    let k = ps.take(n - 1).index_of(kept[i]);
                    assert(ps[k] == kept[i]);
                    assert(ps[n - 1] == now[j]);
                } else {
                    assert(now[j] == kept[j]);
                }
            }
            assert forall|i: int| 0 <= i < now.len() implies (rule_for(
                rules,
                (#[trigger] now[i]).protocol,
            ) matches Some(r) && r.enabled) by {
                if i < kept.len() {
                    assert(now[i] == kept[i]);
                }
            }
            assert forall|p: Protocol| #[trigger]
                count_protocol(now, p) == 0 || (rule_for(rules, p) matches Some(r) && (r.max_count
                    == 0 || count_protocol(now, p) <= r.max_count)) by {
                assert(count_protocol(now, p) == count_protocol(kept, p) + (if x.protocol == p {
                    1nat
                } else {
                    0nat
                }));
            }
        }
    } else {
        assert(admitted(rules, limit, ps, n) =~= Seq::<ProxyView>::empty());
    }
}

/// What is selected obeys the rules and holds nothing but given proxies.
pub proof fn selection_obeys_the_rules(
    rules: Map<Seq<char>, ClashProtocolRule>,
    limit: int,
    ps: Seq<ProxyView>,
)
    ensures
        obeys(rules, limit, selected(rules, limit, ps)),
        forall|i: int|
            0 <= i < selected(rules, limit, ps).len() ==> ps.contains(
                #[trigger] selected(rules, limit, ps)[i],
            ),
{
    let keys = priorities(rules, ps);
    let sorted = arranged(ps, keys);
    let order = arrangement(keys);
    arrangement_is_stable(keys);
    assert forall|a: int, b: int| 0 <= a < b < sorted.len() implies priority_of(
        rules,
        (#[trigger] sorted[a]).protocol,
    ) <= priority_of(rules, (#[trigger] sorted[b]).protocol) by {
        assert(keys[order[a]] <= keys[order[b]]);
    }
    lemma_admitted(rules, limit, sorted, sorted.len() as int);
    let out = selected(rules, limit, ps);
    assert(sorted.take(sorted.len() as int) =~= sorted);
    assert forall|i: int| 0 <= i < out.len() implies ps.contains(#[trigger] out[i]) by {
        let k = sorted.index_of(out[i]);
        assert(ps[order[k]] == out[i]);
    }
}

proof fn lemma_limited(
    rules: Map<Seq<char>, ClashProtocolRule>,
    limit: int,
    ps: Seq<ProxyView>,
    n: int,
)
    requires
        limit > 0,
    ensures
        ({
            let all = admitted(rules, 0, ps, n);
            admitted(rules, limit, ps, n) == (if all.len() > limit {
                all.take(limit)
            } else {
                all
            })
        }),
    decreases n,
{
    if n > 0 {
        lemma_limited(rules, limit, ps, n - 1);
        let before = admitted(rules, 0, ps, n - 1);
        let all = admitted(rules, 0, ps, n);
        assert(admitted(rules, limit, ps, n) =~= (if all.len() > limit {
            all.take(limit)
        } else {
            all
        })) by {
            if before.len() >= limit {
                assert(all.take(limit) =~= before.take(limit));
                assert(before.take(before.len() as int) =~= before);
                assert(all.take(all.len() as int) =~= all);
            }
        }
    }
}

/// A total limit leaves the first of the proxies that are selected without one.
pub proof fn total_limit_leaves_the_first(
    rules: Map<Seq<char>, ClashProtocolRule>,
    limit: int,
    ps: Seq<ProxyView>,
)
    requires
        limit > 0,
    ensures
        ({
            let all = selected(rules, 0, ps);
            selected(rules, limit, ps) == (if all.len() > limit {
                all.take(limit)
            } else {
                all
            })
        }),
{
    let sorted = arranged(ps, priorities(rules, ps));
    lemma_limited(rules, limit, sorted, sorted.len() as int);
}

/// Giving titles changes nothing but names.
pub proof fn titles_change_only_names(ps: Seq<ProxyView>, i: int)
    requires
        0 <= i < ps.len(),
    ensures
        titled(ps).len() == ps.len(),
        titled(ps)[i] == (ProxyView { name: title(base_names(ps), i), ..ps[i] }),
{
}

proof fn lemma_uses_grows(names: Seq<Seq<char>>, name: Seq<char>, i: int, j: int)
    requires
        0 <= i < j,
        names[i] == name,
    ensures
        uses(names, name, i) < uses(names, name, j),
    decreases j - i,
{
    if j > i + 1 {
        lemma_uses_grows(names, name, i, j - 1);
    }
}

proof fn lemma_suffix(a: Seq<char>, m: nat, b: Seq<char>, n: nat)
    requires
        a + "-"@ + decimal(m) == b + "-"@ + decimal(n),
    ensures
        a == b,
        m == n,
{
    reveal_strlit("-");
    let s = a + "-"@ + decimal(m);
    let x = a.len() as int;
    let y = b.len() as int;
    let s2 = b + "-"@ + decimal(n);
    assert(s.len() == x + 1 + decimal(m).len());
    assert(s2.len() == y + 1 + decimal(n).len());
    assert(s[x] == '-');
    assert(s2[y] == '-');
    if x < y {
        assert(s[y] == decimal(m)[y - x - 1]);
        decimal_is_digits(m);
    } else if y < x {
        assert(s2[x] == decimal(n)[x - y - 1]);
        decimal_is_digits(n);
    }
    assert(a =~= s.take(x));
    assert(b =~= s2.take(y));
    assert(decimal(m) =~= s.skip(x + 1));
    assert(decimal(n) =~= s2.skip(y + 1));
    decimal_reads_back(m, m + n);
    decimal_reads_back(n, m + n);
}

/// Two proxies have the same title only where the plain name of one is the
/// numbered name of the other.
pub proof fn titles_tell_proxies_apart(names: Seq<Seq<char>>, i: int, j: int)
    requires
        0 <= i < j < names.len(),
    ensures
        ({
            let m = uses(names, names[i], i);
            let n = uses(names, names[j], j);
            title(names, i) == title(names, j) <==> (m == 0 && n > 0 && names[i] == numbered(
                names[j],
                n,
            )) || (m > 0 && n == 0 && names[j] == numbered(names[i], m))
        }),
{
    let m = uses(names, names[i], i);
    let n = uses(names, names[j], j);
    if names[i] == names[j] {
        lemma_uses_grows(names, names[i], i, j);
    }
    if title(names, i) == title(names, j) && m > 0 && n > 0 {
        lemma_suffix(names[i], m, names[j], n);
    }
}

proof fn lemma_unique(lines: Seq<Seq<char>>, n: int)
    ensures
        unique_from(lines, n).dom().finite(),
        forall|k: Seq<char>| #[trigger]
            unique_from(lines, n).contains_key(k) ==> is_valid(unique_from(lines, n)[k])
                && fingerprint(unique_from(lines, n)[k]) == k,
    decreases n,
{
    if n > 0 {
        lemma_unique(lines, n - 1);
    }
}

proof fn lemma_kept(lines: Seq<Seq<char>>, n: int, i: int)
    requires
        0 <= i < n,
        proxy_in(lines[i]) matches Some(p) && is_valid(p),
    ensures
        unique_from(lines, n).contains_key(fingerprint(proxy_in(lines[i])->0)),
    decreases n,
{
    if i < n - 1 {
        lemma_kept(lines, n - 1, i);
    }
}

/// Every proxy that is kept is valid, and no two of them have the same
/// fingerprint.
pub proof fn proxies_are_unique_and_valid(links: Set<Seq<char>>, i: int, j: int)
    requires
        0 <= i < unique_proxies(links).len(),
        0 <= j < unique_proxies(links).len(),
    ensures
        is_valid(unique_proxies(links)[i]),
        i != j ==> fingerprint(unique_proxies(links)[i]) != fingerprint(unique_proxies(links)[j]),
{
    let lines = listing(links);
    let m = unique_from(lines, lines.len() as int);
    lemma_unique(lines, lines.len() as int);
    listing_holds_the_members(m.dom());
    let keys = listing(m.dom());
    listing_of_ascending(keys);
    assert(keys.to_set().contains(keys[i]));
    assert(keys.to_set().contains(keys[j]));
    assert(m.contains_key(keys[i]));
    assert(m.contains_key(keys[j]));
}

/// Of every link that spells a valid proxy, a proxy with its fingerprint is
/// kept.
pub proof fn valid_links_are_kept(links: Set<Seq<char>>, l: Seq<char>)
    requires
        links.finite(),
        links.contains(l),
        proxy_in(l) matches Some(p) && is_valid(p),
    ensures
        exists|i: int|
            0 <= i < unique_proxies(links).len() && fingerprint(#[trigger] unique_proxies(links)[i])
                == fingerprint(proxy_in(l)->0),
{
    let lines = listing(links);
    let n = lines.len() as int;
    let m = unique_from(lines, n);
    listing_holds_the_members(links);
    assert(lines.to_set().contains(l));
    let k = fingerprint(proxy_in(l)->0);
    lemma_kept(lines, n, lines.index_of(l));
    lemma_unique(lines, n);
    listing_holds_the_members(m.dom());
    let keys = listing(m.dom());
    assert(keys.to_set().contains(k));
    let i = keys.index_of(k);
    assert(unique_proxies(links)[i] == m[k]);
}

/// What a proxy is let in with: its identity, or else its password.
pub open spec fn credential(p: ProxyView) -> Seq<char> {
    if p.uuid is Some {
        p.uuid->0
    } else if p.password is Some {
        p.password->0
    } else {
        Seq::empty()
    }
}

proof fn lemma_bar(a: Seq<char>, x: Seq<char>, b: Seq<char>, y: Seq<char>)
    requires
        !a.contains('|'),
        !b.contains('|'),
        a + "|"@ + x == b + "|"@ + y,
    ensures
        a == b,
        x == y,
{
    reveal_strlit("|");
    let s = a + "|"@ + x;
    let t = b + "|"@ + y;
    let n = a.len() as int;
    let m = b.len() as int;
    assert(s[n] == '|');
    assert(t[m] == '|');
    if n < m {
        assert(b[n] == '|');
    }
    if m < n {
        assert(a[m] == '|');
    }
    assert(a =~= s.take(n));
    assert(b =~= t.take(m));
    assert(x =~= s.skip(n + 1));
    assert(y =~= t.skip(m + 1));
}

proof fn lemma_names_differ(p: Protocol, q: Protocol)
    ensures
        !protocol_name(p).contains('|'),
        protocol_name(p) == protocol_name(q) ==> p == q,
{
    reveal_strlit("vless");
    reveal_strlit("vmess");
    reveal_strlit("trojan");
    reveal_strlit("ss");
    reveal_strlit("hysteria2");
    assert("vless"@[1] != "vmess"@[1]);
    assert("vless"@.len() == 5 && "vmess"@.len() == 5 && "trojan"@.len() == 6);
    assert("ss"@.len() == 2 && "hysteria2"@.len() == 9);
}

proof fn lemma_decimal_has_no_bar(n: nat)
    ensures
        !decimal(n).contains('|'),
{
    decimal_is_digits(n);
    if decimal(n).contains('|') {
        let k = decimal(n).index_of('|');
        assert('0' <= decimal(n)[k] <= '9');
    }
}

/// A fingerprint spells four parts, with bars between them.
proof fn lemma_spelled(p: ProxyView)
    ensures
        fingerprint(p) == protocol_name(p.protocol) + "|"@ + (p.server + "|"@ + (decimal(
            p.port as nat,
        ) + "|"@ + credential(p))),
{
    reveal_strlit("");
    assert(or_else(p.password, ""@) =~= (if p.password is Some {
        p.password->0
    } else {
        Seq::empty()
    }));
    assert(fingerprint(p) =~= protocol_name(p.protocol) + "|"@ + (p.server + "|"@ + (decimal(
        p.port as nat,
    ) + "|"@ + credential(p))));
}

proof fn lemma_ports_differ(m: u16, n: u16)
    ensures
        decimal(m as nat) == decimal(n as nat) ==> m == n,
{
    decimal_reads_back(m as nat, u16::MAX as nat);
    decimal_reads_back(n as nat, u16::MAX as nat);
}

proof fn lemma_equal_parts(p: ProxyView, q: ProxyView)
    requires
        !p.server.contains('|'),
        !q.server.contains('|'),
        fingerprint(p) == fingerprint(q),
    ensures
        protocol_name(p.protocol) == protocol_name(q.protocol),
        p.server == q.server,
        decimal(p.port as nat) == decimal(q.port as nat),
        credential(p) == credential(q),
{
    lemma_spelled(p);
    lemma_spelled(q);
    let a = protocol_name(p.protocol);
    let b = protocol_name(q.protocol);
    let m = decimal(p.port as nat);
    let n = decimal(q.port as nat);
    let x2 = m + "|"@ + credential(p);
    let y2 = n + "|"@ + credential(q);
    lemma_names_differ(p.protocol, q.protocol);
    lemma_names_differ(q.protocol, p.protocol);
    lemma_decimal_has_no_bar(p.port as nat);
    lemma_decimal_has_no_bar(q.port as nat);
    lemma_bar(a, p.server + "|"@ + x2, b, q.server + "|"@ + y2);
    lemma_bar(p.server, x2, q.server, y2);
    lemma_bar(m, credential(p), n, credential(q));
}

/// Proxies with the same fingerprint speak the same protocol, stand at the same
/// server and port, and are let in with the same credential; and proxies that
/// agree in these have the same fingerprint.
pub proof fn fingerprints_tell_proxies_apart(p: ProxyView, q: ProxyView)
    requires
        !p.server.contains('|'),
        !q.server.contains('|'),
    ensures
        fingerprint(p) == fingerprint(q) <==> p.protocol == q.protocol && p.server == q.server
            && p.port == q.port && credential(p) == credential(q),
{
    lemma_spelled(p);
    lemma_spelled(q);
    if fingerprint(p) == fingerprint(q) {
        lemma_equal_parts(p, q);
        lemma_names_differ(p.protocol, q.protocol);
        lemma_ports_differ(p.port, q.port);
    }
}

proof fn lemma_from_lines(lines: Seq<Seq<char>>, n: int, k: Seq<char>)
    requires
        0 <= n <= lines.len(),
        unique_from(lines, n).contains_key(k),
    ensures
        exists|j: int|
            0 <= j < n && proxy_in(#[trigger] lines[j]) == Some(unique_from(lines, n)[k]),
    decreases n,
{
    if n > 0 {
        let before = unique_from(lines, n - 1);
        if before.contains_key(k) {
            lemma_from_lines(lines, n - 1, k);
            let j = choose|j: int| 0 <= j < n - 1 && proxy_in(#[trigger] lines[j]) == Some(before[k]);
            assert(0 <= j < n && proxy_in(lines[j]) == Some(unique_from(lines, n)[k]));
        } else {
            assert(proxy_in(lines[n - 1]) == Some(unique_from(lines, n)[k]));
        }
    }
}

/// For every link that spells a valid proxy, a proxy with the same protocol,
/// server, port and credential is kept: only equals are dropped.
pub proof fn only_equal_proxies_are_dropped(links: Set<Seq<char>>, l: Seq<char>)
    requires
        links.finite(),
        links.contains(l),
        proxy_in(l) is Some,
        is_valid(proxy_in(l)->0),
        forall|k: Seq<char>| #[trigger]
            links.contains(k) && proxy_in(k) is Some ==> !(proxy_in(k)->0).server.contains('|'),
    ensures
        exists|i: int|
            0 <= i < unique_proxies(links).len() && same_proxy(
                #[trigger] unique_proxies(links)[i],
                proxy_in(l)->0,
            ),
{
    valid_links_are_kept(links, l);
    let p = proxy_in(l)->0;
    let i = choose|i: int|
        0 <= i < unique_proxies(links).len() && fingerprint(#[trigger] unique_proxies(links)[i])
            == fingerprint(p);
    let lines = listing(links);
    let n = lines.len() as int;
    let m = unique_from(lines, n);
    lemma_unique(lines, n);
    listing_holds_the_members(m.dom());
    listing_holds_the_members(links);
    let keys = listing(m.dom());
    assert(keys.to_set().contains(keys[i]));
    assert(m.contains_key(keys[i]));
    lemma_from_lines(lines, n, keys[i]);
    let j = choose|j: int| 0 <= j < n && proxy_in(#[trigger] lines[j]) == Some(m[keys[i]]);
    assert(lines.to_set().contains(lines[j]));
    assert(links.contains(lines[j]));
    fingerprints_tell_proxies_apart(unique_proxies(links)[i], p);
}

/// Both speak the same protocol with the same server, port and credential.
pub open spec fn same_proxy(p: ProxyView, q: ProxyView) -> bool {
    p.protocol == q.protocol && p.server == q.server && p.port == q.port && credential(p)
        == credential(q)
}

proof fn lemma_all_admitted(
    rules: Map<Seq<char>, ClashProtocolRule>,
    ps: Seq<ProxyView>,
    n: int,
    i: int,
)
    requires
        0 <= i < n <= ps.len(),
        rules.contains_key(protocol_name(ps[i].protocol)),
        rules[protocol_name(ps[i].protocol)].enabled,
        rules[protocol_name(ps[i].protocol)].max_count == 0,
    ensures
        admitted(rules, 0, ps, n).contains(ps[i]),
    decreases n,
{
    let now = admitted(rules, 0, ps, n);
    let before = admitted(rules, 0, ps, n - 1);
    if i < n - 1 {
        lemma_all_admitted(rules, ps, n - 1, i);
        let k = before.index_of(ps[i]);
        assert(now[k] == ps[i]);
    } else {
        assert(now == before.push(ps[i]));
        assert(now[before.len() as int] == ps[i]);
    }
}

/// Without limits every proxy whose protocol is switched on is selected.
pub proof fn unlimited_rules_let_all_pass(
    rules: Map<Seq<char>, ClashProtocolRule>,
    ps: Seq<ProxyView>,
    i: int,
)
    requires
        0 <= i < ps.len(),
        rules.contains_key(protocol_name(ps[i].protocol)),
        rules[protocol_name(ps[i].protocol)].enabled,
        rules[protocol_name(ps[i].protocol)].max_count == 0,
    ensures
        selected(rules, 0, ps).contains(ps[i]),
{
    let keys = priorities(rules, ps);
    let sorted = arranged(ps, keys);
    let order = arrangement(keys);
    arrangement_is_stable(keys);
    assert(order.contains(i));
    let k = order.index_of(i);
    assert(sorted[k] == ps[i]);
    lemma_all_admitted(rules, sorted, sorted.len() as int, k);
}

} // verus!
