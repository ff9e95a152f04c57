//! What a test found out about a link, and the name that it is given for it.

use vstd::prelude::*;
use vstd::utf8::{encode_utf8, is_ascii_chars, is_ascii_chars_encode_utf8};

use crate::config::TesterConfig;
use crate::csv::{opt_number, CsvRow};
use crate::json::{
    as_text, get_member, into_object, is_flat, json_members, json_read, json_written, put_text,
    read_json, text_member, write_object, Json, Members,
};
use crate::numbers::{decimal, decimal_is_digits, decimal_reads_back, decimal_text};
use crate::outside::{
    base64_decode, base64_decoded, base64_encode, base64_encoded, to_uppercase, uppercase,
};
use crate::percent::{
    ascii_comes_back, percent_decode, percent_decoded, percent_encode, percent_encoded,
};
use crate::text::{
    after_prefix, byte_len, bytes_in, concat, cut, join, joined, lemma_find_from, occurs_at,
    opt_text, push_text, split_once, strip_prefix, texts, to_chars, trim, trimmed,
};

verus! {

/// A measured rate: a number that grows with it, zero where nothing came
/// through, and the rate in words.
#[derive(Debug)]
pub struct Speed {
    pub rank: u64,
    pub label: String,
}

impl Clone for Speed {
    fn clone(&self) -> (r: Self)
        ensures
            r@ == self@,
    {
        Speed { rank: self.rank, label: self.label.clone() }
    }
}

impl View for Speed {
    type V = (u64, Seq<char>);

    open spec fn view(&self) -> (u64, Seq<char>) {
        (self.rank, self.label@)
    }
}

/// What a test found out about a link.
#[derive(Debug)]
pub struct TestResult {
    pub link: String,
    pub delay_ms: Option<u128>,
    pub download: Option<Speed>,
    pub country: Option<String>,
}

/// What a test found out, as plain values.
pub struct ResultView {
    pub link: Seq<char>,
    pub delay_ms: Option<nat>,
    pub download: Option<(u64, Seq<char>)>,
    pub country: Option<Seq<char>>,
}

/// What an optional rate holds.
pub open spec fn opt_speed(s: Option<Speed>) -> Option<(u64, Seq<char>)> {
    match s {
        Some(v) => Some(v@),
        None => None,
    }
}

impl View for TestResult {
    type V = ResultView;

    open spec fn view(&self) -> ResultView {
        ResultView {
            link: self.link@,
            delay_ms: opt_number(self.delay_ms),
            download: opt_speed(self.download),
            country: opt_text(self.country),
        }
    }
}

/// What a list of results holds.
pub open spec fn results(v: Seq<TestResult>) -> Seq<ResultView> {
    Seq::new(v.len(), |i: int| v[i]@)
}

impl Clone for TestResult {
    fn clone(&self) -> (r: Self)
        ensures
            r@ == self@,
    {
        TestResult {
            link: self.link.clone(),
            delay_ms: self.delay_ms,
            download: match &self.download {
                Some(s) => Some(s.clone()),
                None => None,
            },
            country: match &self.country {
                Some(c) => Some(c.clone()),
                None => None,
            },
        }
    }
}

/// The highest of the first `n` rates, the last one of equals.
pub open spec fn best_of(speeds: Seq<(u64, Seq<char>)>, n: int) -> Option<(u64, Seq<char>)>
    decreases n,
{
    if n <= 0 {
        None
    } else {
        match best_of(speeds, n - 1) {
            Some(b) => if speeds[n - 1].0 >= b.0 {
                Some(speeds[n - 1])
            } else {
                Some(b)
            },
            None => Some(speeds[n - 1]),
        }
    }
}

/// The plain values of a list of rates.
pub open spec fn rates(v: Seq<Speed>) -> Seq<(u64, Seq<char>)> {
    Seq::new(v.len(), |i: int| v[i]@)
}

/// The highest of the rates, the last one of equals.
pub fn best_speed(speeds: &[Speed]) -> (r: Option<Speed>)
    ensures
        opt_speed(r) == best_of(rates(speeds@), speeds@.len() as int),
{
    let mut best: Option<Speed> = None;
    for i in 0..speeds.len()
        invariant
            opt_speed(best) == best_of(rates(speeds@), i as int),
    {
        let better = match &best {
            Some(b) => speeds[i].rank >= b.rank,
            None => true,
        };
        if better {
            best = Some(speeds[i].clone());
        }
    }
    best
}

/// The best rate is one of the rates, and none is above it.
pub proof fn best_speed_is_highest(speeds: Seq<(u64, Seq<char>)>)
    ensures
        match best_of(speeds, speeds.len() as int) {
            Some(b) => speeds.contains(b) && (forall|i: int|
                0 <= i < speeds.len() ==> (#[trigger] speeds[i]).0 <= b.0),
            None => speeds.len() == 0,
        },
{
    lemma_best(speeds, speeds.len() as int);
}

proof fn lemma_best(speeds: Seq<(u64, Seq<char>)>, n: int)
    requires
        0 <= n <= speeds.len(),
    ensures
        match best_of(speeds, n) {
            Some(b) => speeds.contains(b) && (forall|i: int|
                0 <= i < n ==> (#[trigger] speeds[i]).0 <= b.0),
            None => n == 0,
        },
    decreases n,
{
    if n > 0 {
        lemma_best(speeds, n - 1);
        assert(speeds.contains(speeds[n - 1]));
    }
}

/// What a line of a table says of a link whose rates are `speeds`.
pub fn test_result(row: CsvRow, speeds: &[Speed]) -> (r: TestResult)
    ensures
        r@ == (ResultView {
            link: row@.link,
            delay_ms: row@.delay_ms,
            download: best_of(rates(speeds@), speeds@.len() as int),
            country: row@.country,
        }),
{
    TestResult {
        link: row.link,
        delay_ms: row.delay_ms,
        download: best_speed(speeds),
        country: row.country,
    }
}

// ---------------------------------------------------------------------------
// Names
// ---------------------------------------------------------------------------

/// The mark of no particular country.
pub const GLOBE: &'static str = "🌐";

/// `c` is an ASCII letter.
pub open spec fn is_letter(c: char) -> bool {
    ('a' <= c && c <= 'z') || ('A' <= c && c <= 'Z')
}

/// The regional indicator of a capital letter.
pub open spec fn indicator(c: char) -> char {
    (127397 + c as int) as char
}

/// The flag of the country with the code `cc`: two regional indicators, or a
/// globe where `cc` is no code of two letters.
pub open spec fn flag_of(cc: Seq<char>) -> Seq<char> {
    let s = uppercase(trimmed(cc));
    if byte_len(s) == 2 && (forall|i: int| 0 <= i < s.len() ==> is_letter(#[trigger] s[i])) {
        Seq::new(s.len(), |i: int| indicator(s[i]))
    } else {
        GLOBE@
    }
}

/// The flag of the country with the code `cc`.
pub fn get_flag(cc: &str) -> (r: String)
    ensures
        r@ == flag_of(cc@),
{
    let s = to_uppercase(&trim(cc));
    let sc = to_chars(&s);
    let mut out = String::new();
    if bytes_in(&s) != 2 {
        return GLOBE.to_string();
    }
    for i in 0..sc.len()
        invariant
            sc@ == s@,
            s@ == uppercase(trimmed(cc@)),
            forall|k: int| 0 <= k < i ==> is_letter(#[trigger] s@[k]),
            out@ == Seq::new(i as nat, |k: int| indicator(s@[k])),
    {
        let c = sc[i];
        if !(('a' <= c && c <= 'z') || ('A' <= c && c <= 'Z')) {
            assert(!is_letter(s@[i as int]));
            return GLOBE.to_string();
        }
        match char::from_u32(127397 + c as u32) {
            Some(f) => {
                out.push(f);
            },
            None => {
                out.push('🌐');
            },
        }
        assert(out@ =~= Seq::new((i + 1) as nat, |k: int| indicator(s@[k])));
    }
    out
}

/// The parts of a name that say what the test found out.
pub open spec fn findings(c: TesterConfig, r: ResultView) -> Seq<Seq<char>> {
    let cc = match r.country {
        Some(x) => x,
        None => "UN"@,
    };
    let country = if c.append_country_flag {
        seq![flag_of(cc), cc]
    } else {
        Seq::empty()
    };
    let delay = if c.append_ping_flag {
        seq![
            match r.delay_ms {
                Some(n) => decimal(n) + "ms"@,
                None => "?ms"@,
            },
        ]
    } else {
        Seq::empty()
    };
    let speed = if c.append_speed_flag {
        match r.download {
            Some(s) => seq![
                if s.0 > 0 {
                    s.1
                } else {
                    "Low"@
                },
            ],
            None => Seq::empty(),
        }
    } else {
        Seq::empty()
    };
    country + delay + speed
}

/// What stands before the old name: the place in the ranking and the findings.
pub open spec fn tag_with(parts: Seq<Seq<char>>, rank: Option<usize>) -> Seq<char> {
    let prefix = match rank {
        Some(n) => "["@ + decimal(n as nat) + "] "@,
        None => Seq::empty(),
    };
    let tag = prefix + joined(parts, " | "@);
    if tag.len() == 0 {
        Seq::empty()
    } else {
        tag + " | "@
    }
}

/// The name of an object that has none.
pub const UNNAMED: &'static str = "Server";

/// The name that the members of an object give.
pub open spec fn name_in(m: Members) -> Seq<char> {
    match text_member(Json::Object(m), "ps"@) {
        Some(t) => t,
        None => UNNAMED@,
    }
}

/// The members of an object, with `tag` before the name.
pub open spec fn retitled(m: Members, tag: Seq<char>) -> Members {
    m.insert("ps"@, Json::Text(tag + name_in(m)))
}

/// The members of the object that a text in base64 spells.
pub open spec fn object_in(s: Seq<char>) -> Option<Members> {
    match base64_decoded(s) {
        Some(bytes) => match json_read(bytes) {
            Some(Json::Object(m)) => Some(m),
            _ => None,
        },
        None => None,
    }
}

/// The text of an object, empty where it has none.
pub open spec fn written_or_nothing(m: Members) -> Seq<char> {
    match json_written(m) {
        Some(t) => t,
        None => Seq::empty(),
    }
}

/// A link whose address is an object in base64, with `tag` before the name in
/// the object.
pub open spec fn vmess_retitled(body: Seq<char>, tag: Seq<char>) -> Option<Seq<char>> {
    match object_in(body) {
        Some(m) => Some(
            "vmess://"@ + base64_encoded(encode_utf8(written_or_nothing(retitled(m, tag)))),
        ),
        None => None,
    }
}

/// The part of a link before its name, and the name; a link without one has
/// the name of the unnamed.
pub open spec fn base_and_name(link: Seq<char>) -> (Seq<char>, Seq<char>) {
    match cut(link, "#"@) {
        Some(p) => p,
        None => (link, UNNAMED@),
    }
}

/// A link whose name follows a number sign, with `tag` before the name.
pub open spec fn plainly_retitled(link: Seq<char>, tag: Seq<char>) -> Seq<char> {
    let p = base_and_name(link);
    p.0 + "#"@ + percent_encoded(tag + percent_decoded(p.1))
}

/// A link with what the test found out, and its place in the ranking, before
/// its name. Where there is nothing to say the link stays, and so does a vmess
/// link that holds no object.
pub open spec fn renamed(
    link: Seq<char>,
    c: TesterConfig,
    r: ResultView,
    rank: Option<usize>,
) -> Seq<char> {
    if findings(c, r).len() == 0 && rank is None {
        link
    } else {
        let tag = tag_with(findings(c, r), rank);
        match after_prefix(link, "vmess://"@) {
            Some(body) => match vmess_retitled(body, tag) {
                Some(l) => l,
                None => link,
            },
            None => plainly_retitled(link, tag),
        }
    }
}

fn list_findings(c: &TesterConfig, r: &TestResult) -> (parts: Vec<String>)
    ensures
        texts(parts@) == findings(*c, r@),
{
    let mut parts: Vec<String> = Vec::new();
    let ghost none = Seq::<Seq<char>>::empty();
    assert(texts(parts@) =~= none);
    let cc = match &r.country {
        Some(x) => x.clone(),
        None => "UN".to_string(),
    };
    if c.append_country_flag {
        let ghost before = parts@;
        parts.push(get_flag(&cc));
        parts.push(cc);
        assert(texts(parts@) =~= texts(before) + seq![flag_of(cc@), cc@]);
        assert(texts(parts@) =~= seq![flag_of(cc@), cc@]);
    }
    if c.append_ping_flag {
        let ghost before = parts@;
        let text = match r.delay_ms {
            Some(n) => concat(&decimal_text(n), "ms"),
            None => "?ms".to_string(),
        };
        parts.push(text);
        assert(texts(parts@) =~= texts(before) + seq![text@]);
    } else {
        assert(texts(parts@) + none =~= texts(parts@));
    }
    if c.append_speed_flag {
        match &r.download {
            Some(s) => {
                let ghost before = parts@;
                let text = if s.rank > 0 {
                    s.label.clone()
                } else {
                    "Low".to_string()
                };
                parts.push(text);
                assert(texts(parts@) =~= texts(before) + seq![text@]);
            },
            None => {
                assert(texts(parts@) + none =~= texts(parts@));
            },
        }
    } else {
        assert(texts(parts@) + none =~= texts(parts@));
    }
    parts
}

fn make_tag(parts: &Vec<String>, rank: Option<usize>) -> (tag: String)
    ensures
        tag@ == tag_with(texts(parts@), rank),
{
    let mut tag = String::new();
    match rank {
        Some(n) => {
            push_text(&mut tag, "[");
            push_text(&mut tag, &decimal_text(n as u128));
            push_text(&mut tag, "] ");
            assert(tag@ =~= "["@ + decimal(n as nat) + "] "@);
        },
        None => {},
    }
    push_text(&mut tag, &join(parts, " | "));
    if !tag.as_str().is_empty() {
        push_text(&mut tag, " | ");
    }
    tag
}

fn retitle_vmess(body: &str, tag: &str) -> (r: Option<String>)
    ensures
        opt_text(r) == vmess_retitled(body@, tag@),
        r is Some ==> is_retitled_object(r->0@, body@, tag@),
{
    let bytes = match base64_decode(body) {
        Some(b) => b,
        None => {
            return None;
        },
    };
    let value = match read_json(&bytes) {
        Some(v) => v,
        None => {
            return None;
        },
    };
    let name = match get_member(&value, "ps") {
        Some(v) => as_text(v),
        None => None,
    };
    let mut object = match into_object(value) {
        Some(m) => m,
        None => {
            return None;
        },
    };
    let ghost members = json_members(object);
    let old_name = match name {
        Some(n) => n,
        None => UNNAMED.to_string(),
    };
    assert(old_name@ == name_in(members));
    put_text(&mut object, "ps", &concat(tag, &old_name));
    let text = match write_object(&object) {
        Some(t) => t,
        None => String::new(),
    };
    let code = base64_encode(text.as_str().as_bytes());
    let link = concat("vmess://", &code);
    proof {
        assert(object_in(body@) == Some(members));
        assert(link@.skip("vmess://"@.len() as int) =~= code@);
        assert(link@.subrange(0, "vmess://"@.len() as int) =~= "vmess://"@);
    }
    Some(link)
}

/// `link` spells the object that `body` spells, with only the name changed,
/// where the object is flat.
pub open spec fn is_retitled_object(link: Seq<char>, body: Seq<char>, tag: Seq<char>) -> bool {
    match object_in(body) {
        Some(m) => is_flat(retitled(m, tag)) ==> (after_prefix(link, "vmess://"@) matches Some(b)
            && object_in(b) == Some(retitled(m, tag))),
        None => false,
    }
}

/// A link with what the test found out, and its place in the ranking, before
/// its name. A vmess link still spells its object, with only the name changed.
pub fn rename_config(
    link: &str,
    tester_cfg: &TesterConfig,
    result: &TestResult,
    rank: Option<usize>,
) -> (r: String)
    ensures
        r@ == renamed(link@, *tester_cfg, result@, rank),
        match after_prefix(link@, "vmess://"@) {
            Some(body) => object_in(body) is Some && (findings(*tester_cfg, result@).len() > 0
                || rank is Some) ==> is_retitled_object(
                r@,
                body,
                tag_with(findings(*tester_cfg, result@), rank),
            ),
            None => true,
        },
{
    let parts = list_findings(tester_cfg, result);
    if parts.len() == 0 && rank.is_none() {
        return link.to_string();
    }
    let tag = make_tag(&parts, rank);
    match strip_prefix(link, "vmess://") {
        Some(body) => match retitle_vmess(&body, &tag) {
            Some(l) => l,
            None => link.to_string(),
        },
        None => {
            let p = match split_once(link, "#") {
                Some(p) => p,
                None => (link.to_string(), UNNAMED.to_string()),
            };
            let name = concat(&tag, &percent_decode(&p.1));
            let mut out = p.0;
            push_text(&mut out, "#");
            push_text(&mut out, &percent_encode(&name));
            out
        },
    }
}

// ---------------------------------------------------------------------------
// Laws
// ---------------------------------------------------------------------------

/// Renaming a link whose name follows a number sign changes nothing before
/// that sign, and what stands behind it reads as the tag and the old name
/// where those are ASCII.
pub proof fn renaming_keeps_the_address(link: Seq<char>, tag: Seq<char>)
    ensures
        base_and_name(plainly_retitled(link, tag)).0 == base_and_name(link).0,
        is_ascii_chars(tag + percent_decoded(base_and_name(link).1)) ==> percent_decoded(
            base_and_name(plainly_retitled(link, tag)).1,
        ) == tag + percent_decoded(base_and_name(link).1),
{
    let p = base_and_name(link);
    let name = tag + percent_decoded(p.1);
    let out = plainly_retitled(link, tag);
    let sign = "#"@;
    let n = p.0.len() as int;
    reveal_strlit("#");
    lemma_find_from(link, sign, 0);
    assert forall|k: int| 0 <= k < n implies !occurs_at(out, sign, k) by {
        if occurs_at(out, sign, k) {
            assert(out.subrange(k, k + 1)[0] == '#');
            assert(p.0[k] == '#');
            assert(link[k] == '#');
            assert(link.subrange(k, k + 1) =~= sign);
            assert(occurs_at(link, sign, k));
        }
    }
    assert(out.subrange(n, n + 1) =~= sign);
    assert(occurs_at(out, sign, n));
    lemma_find_from(out, sign, 0);
    assert(out.take(n) =~= p.0);
    assert(out.skip(n + 1) =~= percent_encoded(name));
    if is_ascii_chars(name) {
        ascii_comes_back(name);
    }
}

/// What stands before the old name begins with the place in the ranking, in
/// brackets, where there is one, so that names in different places differ; it
/// ends with a bar where it says anything.
pub proof fn ranks_lead_the_name(parts: Seq<Seq<char>>, n: usize, m: usize)
    ensures
        tag_with(parts, Some(n)).take(decimal(n as nat).len() as int + 3) == "["@ + decimal(n as nat)
            + "] "@,
        tag_with(parts, Some(n)) == "["@ + decimal(n as nat) + "] "@ + joined(parts, " | "@)
            + " | "@,
        joined(parts, " | "@).len() > 0 ==> tag_with(parts, None) == joined(parts, " | "@) + " | "@,
        joined(parts, " | "@).len() == 0 ==> tag_with(parts, None).len() == 0,
        n != m ==> tag_with(parts, Some(n)) != tag_with(parts, Some(m)),
{
    reveal_strlit("[");
    reveal_strlit("] ");
    reveal_strlit(" | ");
    let a = tag_with(parts, Some(n));
    let b = tag_with(parts, Some(m));
    let x = decimal(n as nat);
    let y = decimal(m as nat);
    assert(a.take(x.len() as int + 3) =~= "["@ + x + "] "@);
    if n != m && a == b {
        decimal_is_digits(n as nat);
        decimal_is_digits(m as nat);
        assert(a[1 + x.len() as int] == ']');
        assert(b[1 + y.len() as int] == ']');
        if x.len() < y.len() {
            assert(b[1 + x.len() as int] == y[x.len() as int]);
        }
        if y.len() < x.len() {
            assert(a[1 + y.len() as int] == x[y.len() as int]);
        }
        assert(x =~= a.subrange(1, 1 + x.len() as int));
        assert(y =~= b.subrange(1, 1 + y.len() as int));
        decimal_reads_back(n as nat, (n + m) as nat);
        decimal_reads_back(m as nat, (n + m) as nat);
    }
}

/// A link whose name follows a number sign keeps all before the sign, and behind
/// it stand the tag and the decoded old name, encoded; a link without a name is
/// named as the unnamed. Where nothing was found out and there is no place in a
/// ranking the link stays.
pub proof fn renamed_links_carry_tag_and_old_name(
    base: Seq<char>,
    old: Seq<char>,
    c: TesterConfig,
    r: ResultView,
    rank: Option<usize>,
)
    requires
        !base.contains('#'),
        after_prefix(base, "vmess://"@) is None,
        after_prefix(base + "#"@ + old, "vmess://"@) is None,
        findings(c, r).len() > 0 || rank is Some,
    ensures
        renamed(base + "#"@ + old, c, r, rank) == base + "#"@ + percent_encoded(
            tag_with(findings(c, r), rank) + percent_decoded(old),
        ),
        renamed(base, c, r, rank) == base + "#"@ + percent_encoded(
            tag_with(findings(c, r), rank) + percent_decoded("Server"@),
        ),
{
    reveal_strlit("#");
    let sign = "#"@;
    let s = base + sign + old;
    let n = base.len() as int;
    assert forall|k: int| 0 <= k < n implies !occurs_at(s, sign, k) && !occurs_at(
        base,
        sign,
        k,
    ) by {
        if occurs_at(s, sign, k) {
            assert(s.subrange(k, k + 1)[0] == '#');
            assert(base[k] == '#');
        }
        if occurs_at(base, sign, k) {
            assert(base.subrange(k, k + 1)[0] == '#');
            assert(base[k] == '#');
        }
    }
    assert(s.subrange(n, n + 1) =~= sign);
    assert(occurs_at(s, sign, n));
    lemma_find_from(s, sign, 0);
    lemma_find_from(base, sign, 0);
    assert(s.take(n) =~= base);
    assert(s.skip(n + 1) =~= old);
}

/// A link of which nothing is to be said stays as it is.
pub proof fn silent_results_change_nothing(link: Seq<char>, c: TesterConfig, r: ResultView)
    requires
        !c.append_country_flag,
        !c.append_ping_flag,
        !c.append_speed_flag,
    ensures
        renamed(link, c, r, None) == link,
{
}

/// Each finding stands in the name where its setting is on and only there: flag
/// and country, then the delay with its unit, then the rate in words.
pub proof fn findings_follow_the_settings(c: TesterConfig, r: ResultView)
    ensures
        ({
            let f = findings(c, r);
            let skip: int = if c.append_country_flag {
                2
            } else {
                0
            };
            let more: int = if c.append_ping_flag {
                skip + 1
            } else {
                skip
            };
            &&& c.append_country_flag && r.country is Some ==> f[0] == flag_of(r.country->0) && f[1]
                == r.country->0
            &&& c.append_country_flag && r.country is None ==> f[0] == flag_of("UN"@) && f[1]
                == "UN"@
            &&& c.append_ping_flag && r.delay_ms is Some ==> f[skip] == decimal(r.delay_ms->0)
                + "ms"@
            &&& c.append_ping_flag && r.delay_ms is None ==> f[skip] == "?ms"@
            &&& c.append_speed_flag && r.download is Some ==> f.len() == more + 1
            &&& !c.append_speed_flag || r.download is None ==> f.len() == more
            &&& forall|rank: u64, label: Seq<char>|
                c.append_speed_flag && r.download == Some(#[trigger] pair(rank, label)) ==> f[more]
                    == (if rank > 0 {
                    label
                } else {
                    "Low"@
                })
        }),
{
}

/// A rate as a pair.
pub open spec fn pair(rank: u64, label: Seq<char>) -> (u64, Seq<char>) {
    (rank, label)
}

/// The flag of a country is made of the regional indicators of its two letters,
/// which follow each other as the letters do; anything else has the globe.
pub proof fn flags_spell_the_country(cc: Seq<char>, a: char, b: char)
    requires
        uppercase(trimmed(cc)) == seq![a, b],
        'A' <= a <= 'Z',
        'A' <= b <= 'Z',
    ensures
        flag_of(cc).len() == 2,
        flag_of(cc)[0] as int == 0x1f1e6 + (a as int - 'A' as int),
        flag_of(cc)[1] as int == 0x1f1e6 + (b as int - 'A' as int),
{
    let s = seq![a, b];
    assert(is_ascii_chars(s));
    is_ascii_chars_encode_utf8(s);
}

} // verus!
