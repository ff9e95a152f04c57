//! The files that hold the collected links.

use vstd::prelude::*;
use vstd::utf8::{encode_utf8, valid_utf8};

use crate::collections::{listing, listing_holds_the_members, TextMap, TextSet};
use crate::config::names;
use crate::json::{as_text, get_member, json_read, json_tree, read_json, text_member};
use crate::outside::{
    base64_decode, base64_decoded, base64_encode, base64_encoded, lowercase, match_groups,
    pattern_groups, text_of_utf8, to_lowercase,
};
use crate::store::contents;
use crate::text::{
    begins, byte_len, bytes_in, concat, contains, ends, ends_with, from_chars, holds_text, join,
    is_line, joined, joined_lines_come_back, lines, lines_hold_no_feed, lines_of,
    occurs_at, same, starts_with,
    texts, to_chars, trim, trimmed, trimmed_ends_are_bare, trimming_once_is_enough, WHITE,
};

verus! {

/// The protocols whose links stay out of the common file.
pub const NON_MIXED_PROTOCOLS: [&'static str; 8] = [
    "tg",
    "dns",
    "nm-dns",
    "nm-vless",
    "slipnet-enc",
    "slipnet",
    "slipstream",
    "dnstt",
];

/// How the names of hosts behind Cloudflare end.
pub const CLOUDFLARE_DOMAINS: [&'static str; 4] = [
    ".workers.dev",
    ".pages.dev",
    ".trycloudflare.com",
    "chatgpt.com",
];

/// The directory of the plain files.
pub const NORMAL_DIR: &'static str = "normal";

/// The directory of the files in base64.
pub const BASE64_DIR: &'static str = "base64";

/// The links of `p` are also in the common file.
pub open spec fn is_mixed(p: Seq<char>) -> bool {
    !names(NON_MIXED_PROTOCOLS@).contains(p)
}

/// Whether the links of `p` are also in the common file.
pub fn mixes(p: &str) -> (r: bool)
    ensures
        r == is_mixed(p@),
{
    for i in 0..NON_MIXED_PROTOCOLS.len()
        invariant
            forall|k: int| 0 <= k < i ==> #[trigger] names(NON_MIXED_PROTOCOLS@)[k] != p@,
    {
        if same(p, NON_MIXED_PROTOCOLS[i]) {
            assert(names(NON_MIXED_PROTOCOLS@)[i as int] == p@);
            return false;
        }
    }
    true
}

// ---------------------------------------------------------------------------
// Kinds of links
// ---------------------------------------------------------------------------

pub const SECRET_PATTERN: &'static str = "secret=([a-zA-Z0-9%_\\-]+)";

/// `c` is a hexadecimal digit.
pub open spec fn is_hex(c: char) -> bool {
    ('0' <= c && c <= '9') || ('a' <= c && c <= 'f') || ('A' <= c && c <= 'F')
}

/// Every character is a hexadecimal digit.
pub open spec fn all_hex(s: Seq<char>) -> bool {
    forall|i: int| 0 <= i < s.len() ==> is_hex(#[trigger] s[i])
}

/// `s` without `dd` at its start.
pub open spec fn without_dd(s: Seq<char>) -> Seq<char> {
    if begins(s, "dd"@) {
        s.skip(2)
    } else {
        s
    }
}

/// A secret that the desktop client takes: thirty-two hexadecimal digits, with
/// or without `dd` before them.
pub open spec fn fits_windows(raw: Seq<char>) -> bool {
    let s = lowercase(raw);
    let digits = without_dd(s);
    &&& !holds_text(s, "%"@)
    &&& !holds_text(s, "_"@)
    &&& !holds_text(s, "-"@)
    &&& !begins(s, "ee"@)
    &&& byte_len(digits) == 32
    &&& all_hex(digits)
}

/// The desktop client takes the secret in the link.
pub open spec fn windows_compatible(link: Seq<char>) -> bool {
    match pattern_groups(SECRET_PATTERN@, link) {
        Some(g) => g.len() > 1 && fits_windows(g[1]),
        None => false,
    }
}

/// Whether the desktop client takes a secret.
pub fn secret_fits_windows(raw: &str) -> (r: bool)
    ensures
        r == fits_windows(raw@),
{
    let s = to_lowercase(raw);
    if contains(&s, "%") || contains(&s, "_") || contains(&s, "-") || starts_with(&s, "ee") {
        return false;
    }
    proof {
        reveal_strlit("dd");
    }
    let ghost low = s@;
    let sc = to_chars(&s);
    let digits = if starts_with(&s, "dd") {
        from_chars(&sc, 2, sc.len())
    } else {
        s
    };
    assert(digits@ =~= without_dd(low));
    if bytes_in(&digits) != 32 {
        return false;
    }
    let dc = to_chars(&digits);
    for i in 0..dc.len()
        invariant
            dc@ == digits@,
            low == lowercase(raw@),
            digits@ == without_dd(low),
            forall|k: int| 0 <= k < i ==> is_hex(#[trigger] digits@[k]),
    {
        let c = dc[i];
        if !(('0' <= c && c <= '9') || ('a' <= c && c <= 'f') || ('A' <= c && c <= 'F')) {
            assert(!is_hex(digits@[i as int]));
            return false;
        }
    }
    true
}

/// Whether the desktop client takes the secret in the link.
pub fn is_windows_compatible(link: &str) -> (r: bool)
    ensures
        r == windows_compatible(link@),
{
    match match_groups(SECRET_PATTERN, link) {
        Some(g) => g.len() > 1 && secret_fits_windows(&g[1]),
        None => false,
    }
}

/// A host behind Cloudflare.
pub open spec fn cloudflare_domain(d: Seq<char>) -> bool {
    exists|i: int|
        0 <= i < CLOUDFLARE_DOMAINS@.len() && ends(
            lowercase(d),
            #[trigger] names(CLOUDFLARE_DOMAINS@)[i],
        )
}

/// A text that names a host behind Cloudflare.
pub open spec fn names_cloudflare(s: Seq<char>) -> bool {
    exists|i: int|
        0 <= i < CLOUDFLARE_DOMAINS@.len() && holds_text(
            s,
            #[trigger] names(CLOUDFLARE_DOMAINS@)[i],
        )
}

/// The text member `key` of a document is a host behind Cloudflare.
pub open spec fn cloudflare_member(v: crate::json::Json, key: Seq<char>) -> bool {
    match text_member(v, key) {
        Some(d) => cloudflare_domain(d),
        None => false,
    }
}

/// The document in a text in base64 names a host behind Cloudflare.
pub open spec fn object_behind_cloudflare(code: Seq<char>) -> bool {
    match base64_decoded(code) {
        Some(bytes) => valid_utf8(bytes) && (match json_read(bytes) {
            Some(v) => cloudflare_member(v, "add"@) || cloudflare_member(v, "host"@)
                || cloudflare_member(v, "sni"@),
            None => false,
        }),
        None => false,
    }
}

/// The text behind the first eight characters.
pub open spec fn behind_scheme(link: Seq<char>) -> Seq<char> {
    if link.len() >= 8 {
        link.skip(8)
    } else {
        Seq::empty()
    }
}

/// The link leads to a host behind Cloudflare.
pub open spec fn behind_cloudflare(link: Seq<char>) -> bool {
    if begins(lowercase(link), "vmess://"@) {
        object_behind_cloudflare(behind_scheme(link))
    } else {
        names_cloudflare(lowercase(link))
    }
}

/// Whether a host is behind Cloudflare.
pub fn is_cloudflare_domain(d: &str) -> (r: bool)
    ensures
        r == cloudflare_domain(d@),
{
    let lower = to_lowercase(d);
    for i in 0..CLOUDFLARE_DOMAINS.len()
        invariant
            lower@ == lowercase(d@),
            forall|k: int|
                0 <= k < i ==> !ends(lower@, #[trigger] names(CLOUDFLARE_DOMAINS@)[k]),
    {
        if ends_with(&lower, CLOUDFLARE_DOMAINS[i]) {
            assert(ends(lower@, names(CLOUDFLARE_DOMAINS@)[i as int]));
            return true;
        }
    }
    false
}

/// Whether a text names a host behind Cloudflare.
pub fn mentions_cloudflare(s: &str) -> (r: bool)
    ensures
        r == names_cloudflare(s@),
{
    for i in 0..CLOUDFLARE_DOMAINS.len()
        invariant
            forall|k: int|
                0 <= k < i ==> !holds_text(s@, #[trigger] names(CLOUDFLARE_DOMAINS@)[k]),
    {
        if contains(s, CLOUDFLARE_DOMAINS[i]) {
            assert(holds_text(s@, names(CLOUDFLARE_DOMAINS@)[i as int]));
            return true;
        }
    }
    false
}

fn member_behind_cloudflare(v: &serde_json::Value, key: &str) -> (r: bool)
    ensures
        r == cloudflare_member(json_tree(*v), key@),
{
    match get_member(v, key) {
        Some(m) => match as_text(m) {
            Some(d) => is_cloudflare_domain(&d),
            None => false,
        },
        None => false,
    }
}

fn code_behind_cloudflare(code: &str) -> (r: bool)
    ensures
        r == object_behind_cloudflare(code@),
{
    let bytes = match base64_decode(code) {
        Some(b) => b,
        None => {
            return false;
        },
    };
    let ghost raw = bytes@;
    let text = match text_of_utf8(bytes) {
        Some(t) => t,
        None => {
            return false;
        },
    };
    proof {
        vstd::utf8::encode_utf8_valid_utf8(text@);
    }
    match read_json(text.as_str().as_bytes()) {
        Some(v) => member_behind_cloudflare(&v, "add") || member_behind_cloudflare(&v, "host")
            || member_behind_cloudflare(&v, "sni"),
        None => false,
    }
}

/// Whether the link leads to a host behind Cloudflare.
pub fn is_behind_cloudflare(link: &str) -> (r: bool)
    ensures
        r == behind_cloudflare(link@),
{
    let lower = to_lowercase(link);
    if starts_with(&lower, "vmess://") {
        let lc = to_chars(link);
        let code = if lc.len() >= 8 {
            from_chars(&lc, 8, lc.len())
        } else {
            String::new()
        };
        assert(code@ =~= behind_scheme(link@));
        code_behind_cloudflare(&code)
    } else {
        mentions_cloudflare(&lower)
    }
}

// ---------------------------------------------------------------------------
// Files
// ---------------------------------------------------------------------------

/// A list of links as two files: plain, and in base64.
#[derive(Debug)]
pub struct OutputFiles {
    pub text_name: String,
    pub text: String,
    pub base64_name: String,
    pub base64: String,
}

/// The names and texts of two files.
pub struct FilesView {
    pub text_name: Seq<char>,
    pub text: Seq<char>,
    pub base64_name: Seq<char>,
    pub base64: Seq<char>,
}

impl View for OutputFiles {
    type V = FilesView;

    open spec fn view(&self) -> FilesView {
        FilesView {
            text_name: self.text_name@,
            text: self.text@,
            base64_name: self.base64_name@,
            base64: self.base64@,
        }
    }
}

/// What optional files hold.
pub open spec fn opt_files(f: Option<OutputFiles>) -> Option<FilesView> {
    match f {
        Some(v) => Some(v@),
        None => None,
    }
}

/// The links in their order, a line each.
pub open spec fn list_text(links: Set<Seq<char>>) -> Seq<char> {
    joined(listing(links), "\n"@)
}

/// The files of a list of links; an empty list has none.
pub open spec fn saved(name: Seq<char>, links: Set<Seq<char>>) -> Option<FilesView> {
    if links == Set::<Seq<char>>::empty() {
        None
    } else {
        Some(
            FilesView {
                text_name: name + ".txt"@,
                text: list_text(links),
                base64_name: name + "_base64.txt"@,
                base64: base64_encoded(encode_utf8(list_text(links))),
            },
        )
    }
}

/// The file in base64 decodes to the plain one.
pub open spec fn decodes(f: FilesView) -> bool {
    base64_decoded(f.base64) == Some(encode_utf8(f.text))
}

/// The files of a list of links; an empty list has none. The file in base64
/// decodes to the plain one.
pub fn save_content(filename: &str, content_list: &TextSet) -> (r: Option<OutputFiles>)
    ensures
        opt_files(r) == saved(filename@, content_list@),
        r is Some ==> decodes(r->0@),
{
    if content_list.is_empty() {
        return None;
    }
    let text = join(&content_list.to_vec(), "\n");
    let base64 = base64_encode(text.as_str().as_bytes());
    Some(
        OutputFiles {
            text_name: concat(filename, ".txt"),
            text,
            base64_name: concat(filename, "_base64.txt"),
            base64,
        },
    )
}

/// The links that a file holds: its lines without white space at either end,
/// those with nothing left out.
pub open spec fn existing_links(raw: Seq<char>) -> Set<Seq<char>> {
    Set::new(
        |l: Seq<char>|
            l.len() > 0 && exists|i: int|
                0 <= i < lines_of(raw).len() && trimmed(#[trigger] lines_of(raw)[i]) == l,
    )
}

/// The links that a file holds.
pub fn read_existing_set(raw: &str) -> (r: TextSet)
    ensures
        r@ == existing_links(raw@),
{
    let all = lines(raw);
    let ghost rows = lines_of(raw@);
    let mut out = TextSet::new();
    for i in 0..all.len()
        invariant
            texts(all@) == rows,
            forall|l: Seq<char>| #[trigger]
                out@.contains(l) <==> l.len() > 0 && exists|k: int|
                    0 <= k < i && trimmed(#[trigger] rows[k]) == l,
    {
        let ghost before = out@;
        let line = trim(&all[i]);
        assert(line@ == trimmed(rows[i as int]));
        if !line.as_str().is_empty() {
            out.insert(line);
        }
        assert forall|l: Seq<char>| #[trigger]
            out@.contains(l) <==> l.len() > 0 && exists|k: int|
                0 <= k < i + 1 && trimmed(#[trigger] rows[k]) == l by {
            if out@.contains(l) {
                if before.contains(l) {
                    let k = choose|k: int| 0 <= k < i && trimmed(#[trigger] rows[k]) == l;
                    assert(0 <= k < i + 1 && trimmed(rows[k]) == l);
                } else {
                    assert(trimmed(rows[i as int]) == l);
                }
            }
            if l.len() > 0 && exists|k: int|
                0 <= k < i + 1 && trimmed(#[trigger] rows[k]) == l {
                let k = choose|k: int| 0 <= k < i + 1 && trimmed(#[trigger] rows[k]) == l;
                if k < i {
                    assert(before.contains(l));
                }
            }
        }
    }
    assert(out@ =~= existing_links(raw@));
    out
}

/// The files of a list of links beside those that a file holds; where the list
/// is empty nothing changes.
pub open spec fn appended(
    name: Seq<char>,
    existing: Seq<char>,
    links: Set<Seq<char>>,
) -> Option<FilesView> {
    if links == Set::<Seq<char>>::empty() {
        None
    } else {
        saved(name, existing_links(existing).union(links))
    }
}

/// The files of a list of links beside those that a file holds. The file in
/// base64 decodes to the plain one.
pub fn save_content_append(
    filename: &str,
    existing: &str,
    new_content: &TextSet,
) -> (r: Option<OutputFiles>)
    ensures
        opt_files(r) == appended(filename@, existing@, new_content@),
        r is Some ==> decodes(r->0@),
{
    if new_content.is_empty() {
        return None;
    }
    let mut combined = read_existing_set(existing);
    combined.extend(new_content);
    save_content(filename, &combined)
}

// ---------------------------------------------------------------------------
// Plans
// ---------------------------------------------------------------------------

/// Links that go into a file.
#[derive(Debug)]
pub struct Batch {
    pub name: String,
    pub links: TextSet,
}

impl View for Batch {
    type V = (Seq<char>, Set<Seq<char>>);

    open spec fn view(&self) -> (Seq<char>, Set<Seq<char>>) {
        (self.name@, self.links@)
    }
}

/// What a list of batches holds.
pub open spec fn batches(v: Seq<Batch>) -> Seq<(Seq<char>, Set<Seq<char>>)> {
    Seq::new(v.len(), |i: int| v[i]@)
}

/// The files of one protocol. The links of Telegram proxies are also parted by
/// whether the desktop client takes them.
pub open spec fn batches_for(p: Seq<char>, links: Set<Seq<char>>) -> Seq<
    (Seq<char>, Set<Seq<char>>),
> {
    if links == Set::<Seq<char>>::empty() {
        Seq::empty()
    } else if !is_mixed(p) && p == "tg"@ {
        seq![
            ("tg_windows"@, links.filter(|l: Seq<char>| windows_compatible(l))),
            ("tg_android"@, links.filter(|l: Seq<char>| !windows_compatible(l))),
            ("tg"@, links),
        ]
    } else {
        seq![(p, links)]
    }
}

/// The files of the first `n` protocols.
pub open spec fn batches_from(
    data: Map<Seq<char>, Set<Seq<char>>>,
    keys: Seq<Seq<char>>,
    n: int,
) -> Seq<(Seq<char>, Set<Seq<char>>)>
    decreases n,
{
    if n <= 0 {
        Seq::empty()
    } else {
        batches_from(data, keys, n - 1) + batches_for(keys[n - 1], data[keys[n - 1]])
    }
}

/// The links of the protocols that `pick` picks.
pub open spec fn gathered(
    data: Map<Seq<char>, Set<Seq<char>>>,
    pick: spec_fn(Seq<char>) -> bool,
) -> Set<Seq<char>> {
    Set::new(
        |l: Seq<char>|
            exists|p: Seq<char>| #[trigger] data.contains_key(p) && pick(p) && data[p].contains(l),
    )
}

/// The links of the common file.
pub open spec fn mixed_links(data: Map<Seq<char>, Set<Seq<char>>>) -> Set<Seq<char>> {
    gathered(data, |p: Seq<char>| is_mixed(p))
}

/// The links of the common file that lead to hosts behind Cloudflare.
pub open spec fn cloudflare_links(data: Map<Seq<char>, Set<Seq<char>>>) -> Set<Seq<char>> {
    mixed_links(data).filter(|l: Seq<char>| behind_cloudflare(l))
}

/// `p` is one of the two slipnet protocols.
pub open spec fn is_slipnet(p: Seq<char>) -> bool {
    p == "slipnet"@ || p == "slipnet-enc"@
}

/// The links of both slipnet protocols.
pub open spec fn slipnet_links(data: Map<Seq<char>, Set<Seq<char>>>) -> Set<Seq<char>> {
    gathered(data, |p: Seq<char>| !is_mixed(p) && is_slipnet(p))
}

/// The files to write, in order: those of each protocol, then the common ones.
pub open spec fn plan(data: Map<Seq<char>, Set<Seq<char>>>) -> Seq<(Seq<char>, Set<Seq<char>>)> {
    let keys = listing(data.dom());
    batches_from(data, keys, keys.len() as int) + seq![
        ("mixed"@, mixed_links(data)),
        ("cloudflare"@, cloudflare_links(data)),
        ("slipnet_mixed"@, slipnet_links(data)),
    ]
}

/// The links of those of the first `n` protocols that `pick` picks.
spec fn gathered_from(
    data: Map<Seq<char>, Set<Seq<char>>>,
    keys: Seq<Seq<char>>,
    pick: spec_fn(Seq<char>) -> bool,
    n: int,
) -> Set<Seq<char>>
    decreases n,
{
    if n <= 0 {
        Set::empty()
    } else if pick(keys[n - 1]) {
        gathered_from(data, keys, pick, n - 1).union(data[keys[n - 1]])
    } else {
        gathered_from(data, keys, pick, n - 1)
    }
}

proof fn lemma_gathered_from(
    data: Map<Seq<char>, Set<Seq<char>>>,
    keys: Seq<Seq<char>>,
    pick: spec_fn(Seq<char>) -> bool,
    n: int,
    l: Seq<char>,
)
    requires
        0 <= n <= keys.len(),
    ensures
        gathered_from(data, keys, pick, n).contains(l) <==> exists|i: int|
            0 <= i < n && pick(#[trigger] keys[i]) && data[keys[i]].contains(l),
    decreases n,
{
    if n > 0 {
        lemma_gathered_from(data, keys, pick, n - 1, l);
        if gathered_from(data, keys, pick, n).contains(l) {
            if gathered_from(data, keys, pick, n - 1).contains(l) {
                let i = choose|i: int|
                    0 <= i < n - 1 && pick(#[trigger] keys[i]) && data[keys[i]].contains(l);
                assert(0 <= i < n && pick(keys[i]) && data[keys[i]].contains(l));
            } else {
                assert(pick(keys[n - 1]) && data[keys[n - 1]].contains(l));
            }
        }
    }
}

proof fn lemma_gathered(
    data: Map<Seq<char>, Set<Seq<char>>>,
    keys: Seq<Seq<char>>,
    pick: spec_fn(Seq<char>) -> bool,
)
    requires
        keys.to_set() == data.dom(),
    ensures
        gathered_from(data, keys, pick, keys.len() as int) == gathered(data, pick),
{
    let n = keys.len() as int;
    assert forall|l: Seq<char>|
        gathered_from(data, keys, pick, n).contains(l) <==> gathered(data, pick).contains(l) by {
        lemma_gathered_from(data, keys, pick, n, l);
        if gathered_from(data, keys, pick, n).contains(l) {
            let i = choose|i: int|
                0 <= i < n && pick(#[trigger] keys[i]) && data[keys[i]].contains(l);
            assert(keys.to_set().contains(keys[i]));
            assert(data.contains_key(keys[i]));
        }
        if gathered(data, pick).contains(l) {
            let p = choose|p: Seq<char>| #[trigger]
                data.contains_key(p) && pick(p) && data[p].contains(l);
            assert(keys.to_set().contains(p));
            let i = keys.index_of(p);
            assert(keys[i] == p);
        }
    }
    assert(gathered_from(data, keys, pick, n) =~= gathered(data, pick));
}

/// Which links of a set are to be kept.
enum Pick {
    Cloudflare,
    Windows,
    Android,
}

spec fn picks(k: Pick, l: Seq<char>) -> bool {
    match k {
        Pick::Cloudflare => behind_cloudflare(l),
        Pick::Windows => windows_compatible(l),
        Pick::Android => !windows_compatible(l),
    }
}

fn select_links(links: &TextSet, k: Pick) -> (r: TextSet)
    ensures
        forall|l: Seq<char>| #[trigger] r@.contains(l) <==> links@.contains(l) && picks(k, l),
{
    let all = links.to_vec();
    let ghost list = listing(links@);
    let mut out = TextSet::new();
    let n: usize = all.len();
    assert(texts(all@).len() == n);
    for i in 0..n
        invariant
            texts(all@) == list,
            list == listing(links@),
            n == list.len(),
            forall|l: Seq<char>| #[trigger]
                out@.contains(l) <==> list.take(i as int).contains(l) && picks(k, l),
    {
        let keep = match k {
            Pick::Cloudflare => is_behind_cloudflare(&all[i]),
            Pick::Windows => is_windows_compatible(&all[i]),
            Pick::Android => !is_windows_compatible(&all[i]),
        };
        let ghost x = list[i as int];
        assert(all@[i as int]@ == x);
        if keep {
            out.insert(all[i].clone());
        }
        assert forall|l: Seq<char>| list.take(i + 1).contains(l) <==> list.take(i as int).contains(
            l,
        ) || l == x by {
            assert(list.take(i + 1) =~= list.take(i as int).push(x));
            if list.take(i as int).contains(l) {
                let m = list.take(i as int).index_of(l);
                assert(list.take(i + 1)[m] == l);
            }
            if l == x {
                assert(list.take(i + 1)[i as int] == l);
            }
            if list.take(i + 1).contains(l) && l != x {
                let m = list.take(i + 1).index_of(l);
                assert(list.take(i as int)[m] == l);
            }
        }
    }
    proof {
        assert(list.take(n as int) =~= list);
        assert forall|l: Seq<char>| #[trigger] out@.contains(l) <==> links@.contains(l) && picks(
            k,
            l,
        ) by {
            assert(list.contains(l) <==> list.to_set().contains(l));
        }
    }
    out
}

fn push_batch(out: &mut Vec<Batch>, name: &str, links: TextSet)
    ensures
        batches(final(out)@) == batches(old(out)@).push((name@, links@)),
{
    let ghost before = out@;
    out.push(Batch { name: name.to_string(), links });
    assert(batches(out@) =~= batches(before).push((name@, links@)));
}

fn push_protocol(out: &mut Vec<Batch>, p: &str, links: &TextSet)
    ensures
        batches(final(out)@) == batches(old(out)@) + batches_for(p@, links@),
{
    let ghost before = batches(out@);
    if links.is_empty() {
        assert(before + Seq::<(Seq<char>, Set<Seq<char>>)>::empty() =~= before);
        return;
    }
    if !mixes(p) && same(p, "tg") {
        let windows = select_links(links, Pick::Windows);
        let android = select_links(links, Pick::Android);
        assert(windows@ =~= links@.filter(|l: Seq<char>| windows_compatible(l)));
        assert(android@ =~= links@.filter(|l: Seq<char>| !windows_compatible(l)));
        push_batch(out, "tg_windows", windows);
        push_batch(out, "tg_android", android);
        push_batch(out, "tg", links.clone());
    } else {
        push_batch(out, p, links.clone());
    }
    assert(batches(out@) =~= before + batches_for(p@, links@));
}

/// The files to write, in order.
pub fn plan_batches(data_map: &TextMap<TextSet>) -> (r: Vec<Batch>)
    ensures
        batches(r@) == plan(contents(data_map@)),
{
    let ghost data = contents(data_map@);
    let ghost keys = listing(data_map@.dom());
    let ghost common = |p: Seq<char>| is_mixed(p);
    let ghost slip = |p: Seq<char>| !is_mixed(p) && is_slipnet(p);
    let mut out: Vec<Batch> = Vec::new();
    let mut mixed = TextSet::new();
    let mut slipnet = TextSet::new();
    let n: usize = data_map.len();
    assert(batches(out@) =~= batches_from(data, keys, 0));
    assert(data.dom() =~= data_map@.dom());
    for i in 0..n
        invariant
            data == contents(data_map@),
            keys == listing(data_map@.dom()),
            n == keys.len(),
            common == (|p: Seq<char>| is_mixed(p)),
            slip == (|p: Seq<char>| !is_mixed(p) && is_slipnet(p)),
            batches(out@) == batches_from(data, keys, i as int),
            mixed@ == gathered_from(data, keys, common, i as int),
            slipnet@ == gathered_from(data, keys, slip, i as int),
    {
        let p = data_map.key(i);
        let links = data_map.value(i);
        assert(data[keys[i as int]] == links@);
        push_protocol(&mut out, p, links);
        if mixes(p) {
            mixed.extend(links);
        } else if same(p, "slipnet") || same(p, "slipnet-enc") {
            slipnet.extend(links);
        }
    }
    proof {
        lemma_gathered(data, keys, common);
        lemma_gathered(data, keys, slip);
    }
    let cloudflare = select_links(&mixed, Pick::Cloudflare);
    assert(cloudflare@ =~= cloudflare_links(data));
    let ghost before = batches(out@);
    push_batch(&mut out, "mixed", mixed);
    push_batch(&mut out, "cloudflare", cloudflare);
    push_batch(&mut out, "slipnet_mixed", slipnet);
    assert(batches(out@) =~= plan(data));
    out
}

/// The files of a batch.
pub open spec fn saver() -> spec_fn((Seq<char>, Set<Seq<char>>)) -> Option<FilesView> {
    |b: (Seq<char>, Set<Seq<char>>)| saved(b.0, b.1)
}

/// What a list of files holds.
pub open spec fn files(v: Seq<OutputFiles>) -> Seq<FilesView> {
    Seq::new(v.len(), |i: int| v[i]@)
}

/// The files of all protocols and the common files, in the order in which they
/// are written over what was there.
pub fn write_files_standard(data_map: &TextMap<TextSet>) -> (r: Vec<OutputFiles>)
    ensures
        files(r@) == plan(contents(data_map@)).filter_map(saver()),
        forall|i: int| 0 <= i < r@.len() ==> decodes((#[trigger] r@[i])@),
{
    let steps = plan_batches(data_map);
    let ghost all = batches(steps@);
    let ghost f = saver();
    let mut out: Vec<OutputFiles> = Vec::new();
    assert(files(out@) =~= all.take(0).filter_map(f));
    for i in 0..steps.len()
        invariant
            all == batches(steps@),
            f == saver(),
            files(out@) == all.take(i as int).filter_map(f),
            forall|k: int| 0 <= k < out@.len() ==> decodes((#[trigger] out@[k])@),
    {
        let ghost before = out@;
        proof {
            assert(all.take(i + 1).drop_last() =~= all.take(i as int));
            assert(all.take(i + 1).last() == steps@[i as int]@);
        }
        match save_content(&steps[i].name, &steps[i].links) {
            Some(o) => {
                out.push(o);
                assert(files(out@) =~= files(before) + seq![o@]);
            },
            None => {},
        }
    }
    assert(all.take(all.len() as int) =~= all);
    out
}

/// The batches of all protocols and the common batches, in the order in which
/// they are added to what is there.
pub fn write_files_standard_append(data_map: &TextMap<TextSet>) -> (r: Vec<Batch>)
    ensures
        batches(r@) == plan(contents(data_map@)),
{
    plan_batches(data_map)
}

/// The files of the common list alone.
pub fn write_mixed_only(mixed_links: &TextSet) -> (r: Option<OutputFiles>)
    ensures
        opt_files(r) == saved("mixed"@, mixed_links@),
        r is Some ==> decodes(r->0@),
{
    save_content("mixed", mixed_links)
}

/// The files of the common list alone, beside what is there.
pub fn write_mixed_only_append(existing: &str, mixed_links: &TextSet) -> (r: Option<OutputFiles>)
    ensures
        opt_files(r) == appended("mixed"@, existing@, mixed_links@),
        r is Some ==> decodes(r->0@),
{
    save_content_append("mixed", existing, mixed_links)
}

// ---------------------------------------------------------------------------
// Laws
// ---------------------------------------------------------------------------

/// A link that can stand in a list: not empty, on one line, and without white
/// space at either end.
pub open spec fn is_clean(l: Seq<char>) -> bool {
    l.len() > 0 && trimmed(l) == l && !l.contains('\n')
}

/// Every link can stand in a list.
pub open spec fn all_clean(links: Set<Seq<char>>) -> bool {
    forall|l: Seq<char>| #[trigger] links.contains(l) ==> is_clean(l)
}

proof fn lemma_clean_is_line(l: Seq<char>)
    requires
        is_clean(l),
    ensures
        is_line(l),
{
    trimmed_ends_are_bare(l, WHITE@);
    assert(WHITE@[4] == '\r');
    assert(WHITE@.contains('\r'));
}

/// A saved list of links reads back as the same links.
pub proof fn saved_links_read_back(links: Set<Seq<char>>)
    requires
        links.finite(),
        all_clean(links),
    ensures
        existing_links(list_text(links)) == links,
{
    listing_holds_the_members(links);
    let list = listing(links);
    assert forall|i: int| 0 <= i < list.len() implies is_line(#[trigger] list[i]) by {
        assert(list.to_set().contains(list[i]));
        lemma_clean_is_line(list[i]);
    }
    joined_lines_come_back(list);
    let back = existing_links(list_text(links));
    assert forall|l: Seq<char>| back.contains(l) <==> links.contains(l) by {
        if back.contains(l) {
            let i = choose|i: int| 0 <= i < list.len() && trimmed(#[trigger] list[i]) == l;
            assert(list.to_set().contains(list[i]));
        }
        if links.contains(l) {
            assert(list.to_set().contains(l));
            let i = list.index_of(l);
            assert(trimmed(list[i]) == l);
        }
    }
    assert(back =~= links);
}

/// The links read from a file can all stand in a list, and there are finitely
/// many of them.
pub proof fn read_links_are_clean(raw: Seq<char>)
    ensures
        all_clean(existing_links(raw)),
        existing_links(raw).finite(),
{
    let rows = lines_of(raw);
    let links = existing_links(raw);
    assert forall|l: Seq<char>| #[trigger] links.contains(l) implies is_clean(l) by {
        let i = choose|i: int| 0 <= i < rows.len() && trimmed(#[trigger] rows[i]) == l;
        trimming_once_is_enough(rows[i], WHITE@);
        trimmed_ends_are_bare(rows[i], WHITE@);
        lines_hold_no_feed(raw, i);
    }
    let bare = Seq::new(rows.len(), |i: int| trimmed(rows[i]));
    assert(links.subset_of(bare.to_set())) by {
        assert forall|l: Seq<char>| #[trigger] links.contains(l) implies bare.to_set().contains(
            l,
        ) by {
            let i = choose|i: int| 0 <= i < rows.len() && trimmed(#[trigger] rows[i]) == l;
            assert(bare[i] == l);
        }
    }
    vstd::seq_lib::seq_to_set_is_finite(bare);
    vstd::set_lib::lemma_set_subset_finite(bare.to_set(), links);
}

/// What was in a file stays in it when links are added, and the added ones are
/// in it too; adding the same links again changes nothing.
pub proof fn appending_is_remembered(raw: Seq<char>, links: Set<Seq<char>>)
    requires
        links.finite(),
        all_clean(links),
    ensures
        ({
            let after = list_text(existing_links(raw).union(links));
            &&& existing_links(after) == existing_links(raw).union(links)
            &&& list_text(existing_links(after).union(links)) == after
        }),
{
    let both = existing_links(raw).union(links);
    read_links_are_clean(raw);
    saved_links_read_back(both);
    assert(both.union(links) =~= both);
}

/// The Telegram proxies that the desktop client takes and the others together
/// are all of them, and none is both.
pub proof fn proxies_part_by_client(links: Set<Seq<char>>)
    ensures
        ({
            let windows = links.filter(|l: Seq<char>| windows_compatible(l));
            let android = links.filter(|l: Seq<char>| !windows_compatible(l));
            &&& windows.union(android) == links
            &&& windows.disjoint(android)
        }),
{
    let windows = links.filter(|l: Seq<char>| windows_compatible(l));
    let android = links.filter(|l: Seq<char>| !windows_compatible(l));
    assert(windows.union(android) =~= links);
}

/// Every link of a protocol stands in the file of that protocol, and in the
/// common file where the protocol has its links there; what leads to a host
/// behind Cloudflare stands in that file too.
pub proof fn every_link_is_filed(data: Map<Seq<char>, Set<Seq<char>>>, p: Seq<char>, l: Seq<char>)
    requires
        data.dom().finite(),
        data.contains_key(p),
        data[p].contains(l),
    ensures
        exists|i: int|
            0 <= i < plan(data).len() && (#[trigger] plan(data)[i]).0 == p && plan(data)[i].1
                == data[p],
        is_mixed(p) ==> mixed_links(data).contains(l),
        is_mixed(p) && behind_cloudflare(l) ==> cloudflare_links(data).contains(l),
{
    let keys = listing(data.dom());
    listing_holds_the_members(data.dom());
    assert(keys.to_set().contains(p));
    let k = keys.index_of(p);
    let i = lemma_filed(data, keys, keys.len() as int, k);
    assert(plan(data)[i] == batches_from(data, keys, keys.len() as int)[i]);
}

proof fn lemma_filed(
    data: Map<Seq<char>, Set<Seq<char>>>,
    keys: Seq<Seq<char>>,
    n: int,
    k: int,
) -> (i: int)
    requires
        0 <= k < n <= keys.len(),
        data[keys[k]] != Set::<Seq<char>>::empty(),
    ensures
        0 <= i < batches_from(data, keys, n).len(),
        batches_from(data, keys, n)[i] == (keys[k], data[keys[k]]),
    decreases n,
{
    let head = batches_from(data, keys, n - 1);
    let own = batches_for(keys[n - 1], data[keys[n - 1]]);
    if k < n - 1 {
        let i = lemma_filed(data, keys, n - 1, k);
        assert((head + own)[i] == head[i]);
        i
    } else {
        let j = own.len() - 1;
        assert(own[j] == (keys[k], data[keys[k]]));
        assert((head + own)[head.len() + j] == own[j]);
        head.len() + j
    }
}

/// The common file takes every protocol but the eight that speak of something else
/// than a proxy of the usual kind.
pub proof fn eight_protocols_stay_apart(p: Seq<char>)
    ensures
        is_mixed(p) <==> p != "tg"@ && p != "dns"@ && p != "nm-dns"@ && p != "nm-vless"@ && p
            != "slipnet-enc"@ && p != "slipnet"@ && p != "slipstream"@ && p != "dnstt"@,
{
    let list = names(NON_MIXED_PROTOCOLS@);
    assert(list.len() == 8);
    assert(list[0] == "tg"@ && list[1] == "dns"@ && list[2] == "nm-dns"@ && list[3]
        == "nm-vless"@);
    assert(list[4] == "slipnet-enc"@ && list[5] == "slipnet"@ && list[6] == "slipstream"@
        && list[7] == "dnstt"@);
    if list.contains(p) {
        let k = list.index_of(p);
        assert(list[k] == p);
    }
}

/// A host is behind Cloudflare exactly where its name, in lower case, ends with one
/// of four names; a text speaks of such a host where it holds one of them.
pub proof fn four_names_are_behind_cloudflare(d: Seq<char>)
    ensures
        cloudflare_domain(d) <==> ends(lowercase(d), ".workers.dev"@) || ends(
            lowercase(d),
            ".pages.dev"@,
        ) || ends(lowercase(d), ".trycloudflare.com"@) || ends(lowercase(d), "chatgpt.com"@),
        names_cloudflare(d) <==> holds_text(d, ".workers.dev"@) || holds_text(d, ".pages.dev"@)
            || holds_text(d, ".trycloudflare.com"@) || holds_text(d, "chatgpt.com"@),
{
    let list = names(CLOUDFLARE_DOMAINS@);
    assert(list.len() == 4);
    assert(list[0] == ".workers.dev"@);
    assert(list[1] == ".pages.dev"@);
    assert(list[2] == ".trycloudflare.com"@);
    assert(list[3] == "chatgpt.com"@);
}

/// The last three lists of a plan are the common one, with the links of every
/// protocol that goes there, that of the links behind Cloudflare among them, and
/// that of the two kinds of slipnet links.
pub proof fn common_lists_hold_what_they_are_for(
    data: Map<Seq<char>, Set<Seq<char>>>,
    l: Seq<char>,
)
    ensures
        ({
            let all = plan(data);
            let n = all.len() as int;
            &&& n >= 3
            &&& all[n - 3].0 == "mixed"@ && all[n - 2].0 == "cloudflare"@ && all[n - 1].0
                == "slipnet_mixed"@
            &&& all[n - 3].1.contains(l) <==> exists|p: Seq<char>| #[trigger]
                data.contains_key(p) && is_mixed(p) && data[p].contains(l)
            &&& all[n - 2].1.contains(l) <==> all[n - 3].1.contains(l) && behind_cloudflare(l)
            &&& all[n - 1].1.contains(l) <==> (data.contains_key("slipnet"@)
                && data["slipnet"@].contains(l)) || (data.contains_key("slipnet-enc"@)
                && data["slipnet-enc"@].contains(l))
        }),
{
    eight_protocols_stay_apart("slipnet"@);
    eight_protocols_stay_apart("slipnet-enc"@);
    if data.contains_key("slipnet"@) && data["slipnet"@].contains(l) {
        assert(is_slipnet("slipnet"@));
    }
    if data.contains_key("slipnet-enc"@) && data["slipnet-enc"@].contains(l) {
        assert(is_slipnet("slipnet-enc"@));
    }
}

/// The links of Telegram proxies stand in three lists: those that the desktop
/// client takes, the others, and all.
pub proof fn telegram_proxies_have_three_lists(links: Set<Seq<char>>, l: Seq<char>)
    requires
        links.contains(l),
    ensures
        ({
            let b = batches_for("tg"@, links);
            &&& b.len() == 3
            &&& b[0].0 == "tg_windows"@ && (b[0].1.contains(l) <==> windows_compatible(l))
            &&& b[1].0 == "tg_android"@ && (b[1].1.contains(l) <==> !windows_compatible(l))
            &&& b[2].0 == "tg"@ && b[2].1 == links
        }),
{
    eight_protocols_stay_apart("tg"@);
}

/// A list is written as a plain file and a file in base64, named after it, and an
/// empty list is not written.
pub proof fn lists_are_written_twice(name: Seq<char>, links: Set<Seq<char>>, l: Seq<char>)
    ensures
        saved(name, Set::<Seq<char>>::empty()) is None,
        links.contains(l) ==> {
            let f = saved(name, links);
            &&& f is Some
            &&& f->0.text_name == name + ".txt"@
            &&& f->0.base64_name == name + "_base64.txt"@
            &&& f->0.text == joined(listing(links), "\n"@)
            &&& f->0.base64 == base64_encoded(encode_utf8(f->0.text))
        },
{
}

/// The desktop client takes a secret of 32 hexadecimal digits, also behind `dd`,
/// and none behind `ee`, of another length or with other characters.
pub proof fn desktop_secrets_are_plain(raw: Seq<char>)
    ensures
        fits_windows(raw) ==> !begins(lowercase(raw), "ee"@),
        fits_windows(raw) && !begins(lowercase(raw), "dd"@) ==> byte_len(lowercase(raw)) == 32
            && all_hex(lowercase(raw)),
        fits_windows(raw) && begins(lowercase(raw), "dd"@) ==> byte_len(lowercase(raw).skip(2))
            == 32 && all_hex(lowercase(raw).skip(2)),
        byte_len(lowercase(raw)) == 32 && all_hex(lowercase(raw)) && !begins(lowercase(raw), "dd"@)
            && !begins(lowercase(raw), "ee"@) ==> fits_windows(raw),
{
    reveal_strlit("%");
    reveal_strlit("_");
    reveal_strlit("-");
    let s = lowercase(raw);
    if all_hex(s) {
        assert forall|c: char| !is_hex(c) implies !s.contains(c) by {
            if s.contains(c) {
                let k = s.index_of(c);
                assert(is_hex(s[k]));
            }
        }
        assert forall|i: int| !occurs_at(s, "%"@, i) && !occurs_at(s, "_"@, i) && !occurs_at(
            s,
            "-"@,
            i,
        ) by {
            if 0 <= i && i + 1 <= s.len() {
                assert(s.subrange(i, i + 1)[0] == s[i]);
                assert(is_hex(s[i]));
            }
        }
    }
}

} // verus!
