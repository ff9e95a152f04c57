//! What the library has from the standard library and from other crates.

use base64::Engine;
use vstd::prelude::*;
use vstd::utf8::{encode_utf8, is_ascii_chars, valid_utf8};

use crate::text::{opt_text, texts};

verus! {

// ---------------------------------------------------------------------------
// Letters
// ---------------------------------------------------------------------------

/// `c` in lower case, where it is an ASCII letter.
pub open spec fn ascii_lower_char(c: char) -> char {
    if 'A' <= c && c <= 'Z' {
        (c as u32 + 32) as char
    } else {
        c
    }
}

/// `c` in upper case, where it is an ASCII letter.
pub open spec fn ascii_upper_char(c: char) -> char {
    if 'a' <= c && c <= 'z' {
        (c as u32 - 32) as char
    } else {
        c
    }
}

/// `s` with its ASCII letters in lower case.
pub open spec fn ascii_lower(s: Seq<char>) -> Seq<char> {
    Seq::new(s.len(), |i: int| ascii_lower_char(s[i]))
}

/// `s` with its ASCII letters in upper case.
pub open spec fn ascii_upper(s: Seq<char>) -> Seq<char> {
    Seq::new(s.len(), |i: int| ascii_upper_char(s[i]))
}

/// What `str::to_lowercase` makes of a text.
pub uninterp spec fn lowercase(s: Seq<char>) -> Seq<char>;

/// What `str::to_uppercase` makes of a text.
pub uninterp spec fn uppercase(s: Seq<char>) -> Seq<char>;

/// `str::to_lowercase`: the text in lower case as Unicode has it; of an ASCII
/// text, the letters `A` to `Z` become `a` to `z` and the rest stays.
#[verifier::external_body]
pub(crate) fn to_lowercase(s: &str) -> (r: String)
    ensures
        r@ == lowercase(s@),
        is_ascii_chars(s@) ==> r@ == ascii_lower(s@),
{
    s.to_lowercase()
}

/// `str::to_uppercase`: the text in upper case as Unicode has it; of an ASCII
/// text, the letters `a` to `z` become `A` to `Z` and the rest stays.
#[verifier::external_body]
pub(crate) fn to_uppercase(s: &str) -> (r: String)
    ensures
        r@ == uppercase(s@),
        is_ascii_chars(s@) ==> r@ == ascii_upper(s@),
{
    s.to_uppercase()
}

// ---------------------------------------------------------------------------
// Bytes and texts
// ---------------------------------------------------------------------------

/// `char::from_u32`: the character with this code, where there is one.
pub assume_specification[ char::from_u32 ](i: u32) -> (r: Option<char>)
    ensures
        match r {
            Some(c) => c as int == i,
            None => 0xd7ff < i < 0xe000 || 0x10ffff < i,
        },
;

/// The text that `String::from_utf8_lossy` makes of some bytes.
pub uninterp spec fn utf8_lossy(bytes: Seq<u8>) -> Seq<char>;

/// `String::from_utf8`: the text whose UTF-8 form the bytes are, or none where
/// they are the form of no text.
#[verifier::external_body]
pub(crate) fn text_of_utf8(bytes: Vec<u8>) -> (r: Option<String>)
    ensures
        match r {
            Some(s) => encode_utf8(s@) == bytes@,
            None => !valid_utf8(bytes@),
        },
{
    String::from_utf8(bytes).ok()
}

/// `String::from_utf8_lossy`: the text whose UTF-8 form the bytes are, with
/// replacement characters where they are none.
#[verifier::external_body]
pub(crate) fn text_of_utf8_lossy(bytes: &[u8]) -> (r: String)
    ensures
        r@ == utf8_lossy(bytes@),
        valid_utf8(bytes@) ==> encode_utf8(r@) == bytes@,
{
    String::from_utf8_lossy(bytes).to_string()
}

/// What `base64`'s standard engine decodes a text to.
pub uninterp spec fn base64_decoded(s: Seq<char>) -> Option<Seq<u8>>;

/// What `base64`'s standard engine encodes some bytes as.
pub uninterp spec fn base64_encoded(bytes: Seq<u8>) -> Seq<char>;

/// The bytes that an optional vector holds.
pub open spec fn opt_bytes(v: Option<Vec<u8>>) -> Option<Seq<u8>> {
    match v {
        Some(b) => Some(b@),
        None => None,
    }
}

/// `c` is one of the characters that the standard base64 alphabet uses.
pub open spec fn is_base64_char(c: char) -> bool {
    ||| 'A' <= c && c <= 'Z'
    ||| 'a' <= c && c <= 'z'
    ||| '0' <= c && c <= '9'
    ||| c == '+'
    ||| c == '/'
    ||| c == '='
}

/// Base64 with its padding: whole groups of four characters of the alphabet,
/// with equals signs only at the end, at most two.
pub open spec fn is_padded(s: Seq<char>) -> bool {
    s.len() % 4 == 0 && forall|i: int|
        0 <= i < s.len() ==> is_base64_char(#[trigger] s[i]) && (s[i] == '=' ==> i + 2 >= s.len()
            && s[s.len() - 1] == '=')
}

/// `base64::Engine::decode` of the standard engine.
#[verifier::external_body]
pub(crate) fn base64_decode(s: &str) -> (r: Option<Vec<u8>>)
    ensures
        opt_bytes(r) == base64_decoded(s@),
{
    base64::engine::general_purpose::STANDARD.decode(s).ok()
}

/// `base64::Engine::encode_string` of the standard engine, into an empty
/// string: four characters of the standard alphabet for every three bytes
/// begun, with padding, which decode to the bytes again.
#[verifier::external_body]
pub(crate) fn base64_encode(bytes: &[u8]) -> (r: String)
    ensures
        r@ == base64_encoded(bytes@),
        base64_decoded(r@) == Some(bytes@),
        r@.len() == (bytes@.len() + 2) / 3 * 4,
        is_padded(r@),
{
    let mut out = String::new();
    base64::engine::general_purpose::STANDARD.encode_string(bytes, &mut out);
    out
}

// ---------------------------------------------------------------------------
// Addresses
// ---------------------------------------------------------------------------

/// The parts of an address.
pub struct UrlParts {
    pub host: Option<String>,
    pub port: Option<u16>,
    pub user: String,
    pub fragment: Option<String>,
    pub query: Vec<(String, String)>,
}

/// The parts of an address, as texts.
pub struct UrlView {
    pub host: Option<Seq<char>>,
    pub port: Option<u16>,
    pub user: Seq<char>,
    pub fragment: Option<Seq<char>>,
    pub query: Seq<(Seq<char>, Seq<char>)>,
}

impl View for UrlParts {
    type V = UrlView;

    open spec fn view(&self) -> UrlView {
        UrlView {
            host: opt_text(self.host),
            port: self.port,
            user: self.user@,
            fragment: opt_text(self.fragment),
            query: Seq::new(self.query@.len(), |i: int| (self.query@[i].0@, self.query@[i].1@)),
        }
    }
}

/// The parts that an optional address holds.
pub open spec fn opt_url(u: Option<UrlParts>) -> Option<UrlView> {
    match u {
        Some(p) => Some(p@),
        None => None,
    }
}

/// The parts of the address that `reqwest::Url::parse` finds in a text.
pub uninterp spec fn url_parsed(s: Seq<char>) -> Option<UrlView>;

/// `reqwest::Url::parse`, and of the address the host, the port where it is
/// not the one of the scheme, the user name, the fragment and the decoded
/// pairs of the query.
#[verifier::external_body]
pub(crate) fn parse_url(s: &str) -> (r: Option<UrlParts>)
    ensures
        opt_url(r) == url_parsed(s@),
{
    let url = reqwest::Url::parse(s).ok()?;
    Some(
        UrlParts {
            host: url.host_str().map(|h| h.to_string()),
            port: url.port(),
            user: url.username().to_string(),
            fragment: url.fragment().map(|f| f.to_string()),
            query: url.query_pairs().map(|p| (p.0.to_string(), p.1.to_string())).collect(),
        },
    )
}

// ---------------------------------------------------------------------------
// Patterns
// ---------------------------------------------------------------------------

/// The leftmost match of a pattern, and behind it the groups of that match.
pub uninterp spec fn pattern_groups(pattern: Seq<char>, s: Seq<char>) -> Option<Seq<Seq<char>>>;

/// The first group of every match of a pattern, from the left.
pub uninterp spec fn pattern_captures(pattern: Seq<char>, s: Seq<char>) -> Seq<Seq<char>>;

/// Every match of a pattern, from the left.
pub uninterp spec fn pattern_matches(pattern: Seq<char>, s: Seq<char>) -> Seq<Seq<char>>;

/// The texts that an optional list of strings holds.
pub open spec fn opt_texts(v: Option<Vec<String>>) -> Option<Seq<Seq<char>>> {
    match v {
        Some(l) => Some(texts(l@)),
        None => None,
    }
}

/// `regex::Regex::captures`: the leftmost match and its groups, a group that
/// takes no part being empty; none where nothing matches.
#[verifier::external_body]
pub(crate) fn match_groups(pattern: &str, s: &str) -> (r: Option<Vec<String>>)
    ensures
        opt_texts(r) == pattern_groups(pattern@, s@),
{
    let found = regex::Regex::new(pattern).ok()?.captures(s)?;
    Some(found.iter().map(|g| g.map_or("", |m| m.as_str()).to_string()).collect())
}

/// `regex::Regex::captures_iter`: the first group of every match.
#[verifier::external_body]
pub(crate) fn match_captures(pattern: &str, s: &str) -> (r: Vec<String>)
    ensures
        texts(r@) == pattern_captures(pattern@, s@),
{
    match regex::Regex::new(pattern) {
        Ok(p) => p.captures_iter(s).map(|c| c.get(1).map_or("", |m| m.as_str()).to_string()).collect(),
        Err(_) => Vec::new(),
    }
}

/// `regex::Regex::find_iter`: every match.
#[verifier::external_body]
pub(crate) fn match_all(pattern: &str, s: &str) -> (r: Vec<String>)
    ensures
        texts(r@) == pattern_matches(pattern@, s@),
{
    match regex::Regex::new(pattern) {
        Ok(p) => p.find_iter(s).map(|m| m.as_str().to_string()).collect(),
        Err(_) => Vec::new(),
    }
}

// ---------------------------------------------------------------------------
// Archives
// ---------------------------------------------------------------------------

/// How many entries `zip` finds in an archive.
pub uninterp spec fn archive_size(bytes: Seq<u8>) -> Option<usize>;

/// The name that `zip` finds of an entry of an archive.
pub uninterp spec fn archive_name(bytes: Seq<u8>, i: usize) -> Option<Seq<char>>;

/// The bytes that `zip` unpacks of an entry of an archive.
pub uninterp spec fn archive_content(bytes: Seq<u8>, i: usize) -> Option<Seq<u8>>;

/// `zip::ZipArchive::len` of an archive in memory; none where the bytes are
/// no archive.
#[verifier::external_body]
pub(crate) fn archive_len(bytes: &[u8]) -> (r: Option<usize>)
    ensures
        r == archive_size(bytes@),
{
    Some(zip::ZipArchive::new(std::io::Cursor::new(bytes)).ok()?.len())
}

/// `zip::read::ZipFile::name` of an entry of an archive in memory; none where
/// the bytes are no archive or the entry cannot be opened.
#[verifier::external_body]
pub(crate) fn archive_entry_name(bytes: &[u8], i: usize) -> (r: Option<String>)
    ensures
        opt_text(r) == archive_name(bytes@, i),
{
    let mut archive = zip::ZipArchive::new(std::io::Cursor::new(bytes)).ok()?;
    let name = archive.by_index(i).ok()?.name().to_string();
    Some(name)
}

/// `std::io::Read::read_to_end` of the `zip::read::ZipFile` of an entry of an
/// archive in memory: its unpacked bytes; none where the bytes are no archive
/// or the entry cannot be opened or unpacked.
#[verifier::external_body]
pub(crate) fn archive_entry(bytes: &[u8], i: usize) -> (r: Option<Vec<u8>>)
    ensures
        opt_bytes(r) == archive_content(bytes@, i),
{
    let mut archive = zip::ZipArchive::new(std::io::Cursor::new(bytes)).ok()?;
    let mut out = Vec::new();
    std::io::Read::read_to_end(&mut archive.by_index(i).ok()?, &mut out).ok()?;
    Some(out)
}

// ---------------------------------------------------------------------------
// Time and machine
// ---------------------------------------------------------------------------

/// The instant that `chrono` reads from a text in the form of RFC 3339: whole
/// seconds since the start of 1970, and nanoseconds.
pub uninterp spec fn rfc3339_read(s: Seq<char>) -> Option<(i64, u32)>;

/// `chrono::DateTime::parse_from_rfc3339`: the instant as whole seconds since
/// the start of 1970, and nanoseconds.
#[verifier::external_body]
pub(crate) fn read_rfc3339(s: &str) -> (r: Option<(i64, u32)>)
    ensures
        r == rfc3339_read(s@),
{
    let t = chrono::DateTime::parse_from_rfc3339(s).ok()?;
    Some((t.timestamp(), t.timestamp_subsec_nanos()))
}

/// `chrono::Utc::now`: whole seconds since the start of 1970, which are never
/// negative, and less than a second of nanoseconds; the system clock counts no
/// leap seconds. Which instant it is depends on the clock, so no more is said.
#[verifier::external_body]
pub(crate) fn utc_now() -> (r: (i64, u32))
    ensures
        r.0 >= 0,
        r.1 < 1_000_000_000,
{
    let t = chrono::Utc::now();
    (t.timestamp(), t.timestamp_subsec_nanos())
}

/// Hours, minutes and seconds.
pub const CLOCK_FORMAT: &'static str = "%H:%M:%S";

/// Two digits each for hours, minutes and seconds, with colons between.
pub open spec fn is_clock_text(s: Seq<char>) -> bool {
    s.len() == 8 && s[2] == ':' && s[5] == ':' && forall|i: int|
        0 <= i < 8 && i != 2 && i != 5 ==> '0' <= #[trigger] s[i] && s[i] <= '9'
}

/// `chrono::Local::now`, written in hours, minutes and seconds, each with two
/// digits. Which time it is depends on the clock and the time zone, so no more
/// is said.
#[verifier::external_body]
pub(crate) fn local_clock(format: &str) -> (r: String)
    requires
        format@ == CLOCK_FORMAT@,
    ensures
        is_clock_text(r@),
{
    chrono::Local::now().format(format).to_string()
}

/// `std::path::MAIN_SEPARATOR`, which is a backslash on Windows. What it is
/// depends on the machine, so nothing is said of it.
#[verifier::external_body]
pub(crate) fn path_separator() -> (r: char) {
    std::path::MAIN_SEPARATOR
}

} // verus!
