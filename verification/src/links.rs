//! Proxies, as links spell them.

use vstd::prelude::*;
use vstd::utf8::{
    decode_utf8, encode_utf8, encode_utf8_decode_utf8, encode_utf8_valid_utf8, is_ascii_chars,
    is_ascii_chars_encode_utf8, valid_utf8,
};

use crate::json::{as_text, get_member, json_read, json_tree, read_json, text_member, Json};
use crate::numbers::{decimal, decimal_reads_back, number_in, parse_number};
use crate::outside::{
    base64_decode, base64_decoded, is_base64_char, is_padded, lowercase, parse_url, text_of_utf8,
    to_lowercase, url_parsed, UrlParts, UrlView,
};
use crate::percent::{safe_decode, safely_decoded};
use crate::text::{
    bare_text_stays, begins, byte_len, bytes_in, contains, cut, find_from, holds_text,
    lemma_find_from, occurs_at, opt_text, push_text, replace, replace_first, replaced,
    replaced_first, replacing_a_character, replacing_nothing, same, split_once, starts_with,
    strip_prefixes, trim, trimmed, unprefixed, with_char, WHITE,
};

verus! {

/// What a proxy speaks.
#[derive(Clone, Copy, Debug, PartialEq, Eq, Structural)]
pub enum Protocol {
    Vless,
    Vmess,
    Trojan,
    Ss,
    Hysteria2,
}

/// The name of a protocol.
pub open spec fn protocol_name(p: Protocol) -> Seq<char> {
    match p {
        Protocol::Vless => "vless"@,
        Protocol::Vmess => "vmess"@,
        Protocol::Trojan => "trojan"@,
        Protocol::Ss => "ss"@,
        Protocol::Hysteria2 => "hysteria2"@,
    }
}

impl Protocol {
    /// The name of the protocol.
    pub fn name(self) -> (r: &'static str)
        ensures
            r@ == protocol_name(self),
    {
        match self {
            Protocol::Vless => "vless",
            Protocol::Vmess => "vmess",
            Protocol::Trojan => "trojan",
            Protocol::Ss => "ss",
            Protocol::Hysteria2 => "hysteria2",
        }
    }
}

/// The keys of a server that borrows the face of another.
#[derive(Debug)]
pub struct Reality {
    pub public_key: String,
    pub short_id: Option<String>,
}

/// The keys of such a server, as texts.
pub struct RealityView {
    pub public_key: Seq<char>,
    pub short_id: Option<Seq<char>>,
}

impl View for Reality {
    type V = RealityView;

    open spec fn view(&self) -> RealityView {
        RealityView { public_key: self.public_key@, short_id: opt_text(self.short_id) }
    }
}

/// A proxy.
#[derive(Debug)]
pub struct Proxy {
    pub protocol: Protocol,
    pub name: String,
    pub server: String,
    pub port: u16,
    pub uuid: Option<String>,
    pub password: Option<String>,
    pub cipher: Option<String>,
    pub alter_id: Option<u16>,
    pub tls: Option<bool>,
    pub network: Option<String>,
    pub servername: Option<String>,
    pub client_fingerprint: Option<String>,
    pub reality: Option<Reality>,
    pub sni: Option<String>,
}

/// A proxy, as plain values.
pub struct ProxyView {
    pub protocol: Protocol,
    pub name: Seq<char>,
    pub server: Seq<char>,
    pub port: u16,
    pub uuid: Option<Seq<char>>,
    pub password: Option<Seq<char>>,
    pub cipher: Option<Seq<char>>,
    pub alter_id: Option<u16>,
    pub tls: Option<bool>,
    pub network: Option<Seq<char>>,
    pub servername: Option<Seq<char>>,
    pub client_fingerprint: Option<Seq<char>>,
    pub reality: Option<RealityView>,
    pub sni: Option<Seq<char>>,
}

/// What optional keys hold.
pub open spec fn opt_reality(r: Option<Reality>) -> Option<RealityView> {
    match r {
        Some(v) => Some(v@),
        None => None,
    }
}

impl View for Proxy {
    type V = ProxyView;

    open spec fn view(&self) -> ProxyView {
        ProxyView {
            protocol: self.protocol,
            name: self.name@,
            server: self.server@,
            port: self.port,
            uuid: opt_text(self.uuid),
            password: opt_text(self.password),
            cipher: opt_text(self.cipher),
            alter_id: self.alter_id,
            tls: self.tls,
            network: opt_text(self.network),
            servername: opt_text(self.servername),
            client_fingerprint: opt_text(self.client_fingerprint),
            reality: opt_reality(self.reality),
            sni: opt_text(self.sni),
        }
    }
}

/// What an optional proxy holds.
pub open spec fn opt_proxy(p: Option<Proxy>) -> Option<ProxyView> {
    match p {
        Some(v) => Some(v@),
        None => None,
    }
}

/// A proxy of which no more is known than where it is.
pub open spec fn bare(protocol: Protocol, name: Seq<char>, server: Seq<char>, port: u16) -> ProxyView {
    ProxyView {
        protocol,
        name,
        server,
        port,
        uuid: None,
        password: None,
        cipher: None,
        alter_id: None,
        tls: None,
        network: None,
        servername: None,
        client_fingerprint: None,
        reality: None,
        sni: None,
    }
}

fn bare_proxy(protocol: Protocol, name: String, server: String, port: u16) -> (r: Proxy)
    ensures
        r@ == bare(protocol, name@, server@, port),
{
    Proxy {
        protocol,
        name,
        server,
        port,
        uuid: None,
        password: None,
        cipher: None,
        alter_id: None,
        tls: None,
        network: None,
        servername: None,
        client_fingerprint: None,
        reality: None,
        sni: None,
    }
}

fn copy_opt(s: &Option<String>) -> (r: Option<String>)
    ensures
        opt_text(r) == opt_text(*s),
{
    match s {
        Some(t) => Some(t.clone()),
        None => None,
    }
}

impl Clone for Proxy {
    fn clone(&self) -> (r: Self)
        ensures
            r@ == self@,
    {
        Proxy {
            protocol: self.protocol,
            name: self.name.clone(),
            server: self.server.clone(),
            port: self.port,
            uuid: copy_opt(&self.uuid),
            password: copy_opt(&self.password),
            cipher: copy_opt(&self.cipher),
            alter_id: self.alter_id,
            tls: self.tls,
            network: copy_opt(&self.network),
            servername: copy_opt(&self.servername),
            client_fingerprint: copy_opt(&self.client_fingerprint),
            reality: match &self.reality {
                Some(k) => Some(
                    Reality {
                        public_key: k.public_key.clone(),
                        short_id: copy_opt(&k.short_id),
                    },
                ),
                None => None,
            },
            sni: copy_opt(&self.sni),
        }
    }
}

// ---------------------------------------------------------------------------
// Texts in base64
// ---------------------------------------------------------------------------

/// A text in base64 as the standard alphabet has it: the characters that stand
/// for others in addresses are put back, blanks are left out, and the padding
/// is filled up. None where nothing is left or one character is too many.
pub open spec fn standard_code(v: Seq<char>) -> Option<Seq<char>> {
    let s = replaced(
        replaced(replaced(trimmed(v), "-"@, "+"@), "_"@, "/"@),
        " "@,
        ""@,
    );
    let pad = byte_len(s) % 4;
    if s.len() == 0 || pad == 1 {
        None
    } else if pad == 2 {
        Some(s + "=="@)
    } else if pad == 3 {
        Some(s + "="@)
    } else {
        Some(s)
    }
}

/// The text that bytes are the UTF-8 form of.
pub open spec fn text_in(bytes: Option<Seq<u8>>) -> Option<Seq<char>> {
    match bytes {
        Some(b) => if valid_utf8(b) {
            Some(decode_utf8(b))
        } else {
            None
        },
        None => None,
    }
}

/// The text that a text in base64 spells.
pub open spec fn spelled(v: Seq<char>) -> Option<Seq<char>> {
    match standard_code(v) {
        Some(code) => text_in(base64_decoded(code)),
        None => None,
    }
}

fn standardize(v: &str) -> (r: Option<String>)
    ensures
        opt_text(r) == standard_code(v@),
{
    proof {
        reveal_strlit("-");
        reveal_strlit("_");
        reveal_strlit(" ");
    }
    let a = replace(&trim(v), "-", "+");
    let b = replace(&a, "_", "/");
    let mut s = replace(&b, " ", "");
    if s.as_str().is_empty() {
        return None;
    }
    let pad: usize = bytes_in(&s) % 4;
    if pad == 2 {
        push_text(&mut s, "==");
    } else if pad == 3 {
        push_text(&mut s, "=");
    } else if pad == 1 {
        return None;
    }
    Some(s)
}

/// The text that a text in base64 spells.
pub fn normalize_base64(v: &str) -> (r: Option<String>)
    ensures
        opt_text(r) == spelled(v@),
{
    match standardize(v) {
        Some(code) => match base64_decode(&code) {
            Some(bytes) => {
                match text_of_utf8(bytes) {
                    Some(t) => {
                        proof {
                            encode_utf8_valid_utf8(t@);
                            encode_utf8_decode_utf8(t@);
                        }
                        Some(t)
                    },
                    None => None,
                }
            },
            None => None,
        },
        None => None,
    }
}

// ---------------------------------------------------------------------------
// Addresses
// ---------------------------------------------------------------------------

/// The value of the first pair at or after `i` with this key.
pub open spec fn value_from(query: Seq<(Seq<char>, Seq<char>)>, key: Seq<char>, i: int) -> Option<
    Seq<char>,
>
    decreases query.len() - i,
{
    if i < 0 || i >= query.len() {
        None
    } else if query[i].0 == key {
        Some(query[i].1)
    } else {
        value_from(query, key, i + 1)
    }
}

/// The value of the first pair of the query with this key.
pub open spec fn value_of(u: UrlView, key: Seq<char>) -> Option<Seq<char>> {
    value_from(u.query, key, 0)
}

/// `s`, or else `other`.
pub open spec fn or_else(s: Option<Seq<char>>, other: Seq<char>) -> Seq<char> {
    match s {
        Some(t) => t,
        None => other,
    }
}

fn query_value(u: &UrlParts, key: &str) -> (r: Option<String>)
    ensures
        opt_text(r) == value_of(u@, key@),
{
    let mut i: usize = 0;
    while i < u.query.len()
        invariant
            i <= u.query@.len(),
            value_from(u@.query, key@, i as int) == value_from(u@.query, key@, 0),
        decreases u.query@.len() - i,
    {
        if same(&u.query[i].0, key) {
            return Some(u.query[i].1.clone());
        }
        i += 1;
    }
    None
}

fn text_or(s: Option<String>, other: &str) -> (r: String)
    ensures
        r@ == or_else(opt_text(s), other@),
{
    match s {
        Some(t) => t,
        None => other.to_string(),
    }
}

/// The port of an address, where it is given.
pub open spec fn port_or(port: Option<u16>, other: u16) -> u16 {
    match port {
        Some(p) => p,
        None => other,
    }
}

/// What every proxy in the form of an address has: the name behind the number
/// sign or else the host, the host, and the port, 443 where none is given.
pub open spec fn located(protocol: Protocol, u: UrlView) -> Option<ProxyView> {
    match u.host {
        Some(host) => Some(
            bare(
                protocol,
                safely_decoded(or_else(u.fragment, host)),
                host,
                port_or(u.port, 443),
            ),
        ),
        None => None,
    }
}

fn locate_proxy(protocol: Protocol, u: &UrlParts) -> (r: Option<Proxy>)
    ensures
        opt_proxy(r) == located(protocol, u@),
{
    match &u.host {
        Some(host) => {
            let name = match &u.fragment {
                Some(f) => safe_decode(f),
                None => safe_decode(host),
            };
            let port: u16 = match u.port {
                Some(p) => p,
                None => 443,
            };
            Some(bare_proxy(protocol, name, host.clone(), port))
        },
        None => None,
    }
}

/// The vless proxy that an address describes.
pub open spec fn vless_at(u: UrlView) -> Option<ProxyView> {
    let security = or_else(value_of(u, "security"@), ""@);
    match located(Protocol::Vless, u) {
        Some(p) => Some(
            ProxyView {
                uuid: Some(u.user),
                tls: Some(security == "tls"@ || security == "reality"@),
                network: Some(or_else(value_of(u, "type"@), "tcp"@)),
                servername: value_of(u, "sni"@),
                client_fingerprint: value_of(u, "fp"@),
                reality: if security == "reality"@ {
                    Some(
                        RealityView {
                            public_key: or_else(value_of(u, "pbk"@), ""@),
                            short_id: value_of(u, "sid"@),
                        },
                    )
                } else {
                    None
                },
                ..p
            },
        ),
        None => None,
    }
}

/// The vless proxy that an address describes.
pub fn vless_of(u: &UrlParts) -> (r: Option<Proxy>)
    ensures
        opt_proxy(r) == vless_at(u@),
{
    let security = text_or(query_value(u, "security"), "");
    match locate_proxy(Protocol::Vless, u) {
        Some(p) => {
            let mut p = p;
            let masked = same(&security, "reality");
            p.uuid = Some(u.user.clone());
            p.tls = Some(same(&security, "tls") || masked);
            p.network = Some(text_or(query_value(u, "type"), "tcp"));
            p.servername = query_value(u, "sni");
            p.client_fingerprint = query_value(u, "fp");
            if masked {
                p.reality = Some(
                    Reality {
                        public_key: text_or(query_value(u, "pbk"), ""),
                        short_id: query_value(u, "sid"),
                    },
                );
            }
            Some(p)
        },
        None => None,
    }
}

/// The trojan proxy that an address describes.
pub open spec fn trojan_at(u: UrlView) -> Option<ProxyView> {
    match located(Protocol::Trojan, u) {
        Some(p) => Some(
            ProxyView {
                password: Some(safely_decoded(u.user)),
                tls: Some(true),
                network: Some(or_else(value_of(u, "type"@), "tcp"@)),
                servername: value_of(u, "sni"@),
                ..p
            },
        ),
        None => None,
    }
}

/// The trojan proxy that an address describes.
pub fn trojan_of(u: &UrlParts) -> (r: Option<Proxy>)
    ensures
        opt_proxy(r) == trojan_at(u@),
{
    match locate_proxy(Protocol::Trojan, u) {
        Some(p) => {
            let mut p = p;
            p.password = Some(safe_decode(&u.user));
            p.tls = Some(true);
            p.network = Some(text_or(query_value(u, "type"), "tcp"));
            p.servername = query_value(u, "sni");
            Some(p)
        },
        None => None,
    }
}

/// The hysteria proxy that an address describes.
pub open spec fn hysteria2_at(u: UrlView) -> Option<ProxyView> {
    match located(Protocol::Hysteria2, u) {
        Some(p) => Some(
            ProxyView {
                password: Some(safely_decoded(u.user)),
                sni: value_of(u, "sni"@),
                ..p
            },
        ),
        None => None,
    }
}

/// The hysteria proxy that an address describes.
pub fn hysteria2_of(u: &UrlParts) -> (r: Option<Proxy>)
    ensures
        opt_proxy(r) == hysteria2_at(u@),
{
    match locate_proxy(Protocol::Hysteria2, u) {
        Some(p) => {
            let mut p = p;
            p.password = Some(safe_decode(&u.user));
            p.sni = query_value(u, "sni");
            Some(p)
        },
        None => None,
    }
}

/// The address that a link is read as: the scheme that is its own gives way to
/// one whose addresses have a host and a port.
pub open spec fn address_of(link: Seq<char>, scheme: Seq<char>) -> Option<UrlView> {
    url_parsed(replaced_first(link, scheme, "http://"@))
}

/// The vless proxy that a link spells.
pub open spec fn vless_in(link: Seq<char>) -> Option<ProxyView> {
    match address_of(link, "vless://"@) {
        Some(u) => vless_at(u),
        None => None,
    }
}

/// The vless proxy that a link spells.
pub fn parse_vless(link: &str) -> (r: Option<Proxy>)
    ensures
        opt_proxy(r) == vless_in(link@),
{
    match parse_url(&replace_first(link, "vless://", "http://")) {
        Some(u) => vless_of(&u),
        None => None,
    }
}

/// The trojan proxy that a link spells.
pub open spec fn trojan_in(link: Seq<char>) -> Option<ProxyView> {
    match address_of(link, "trojan://"@) {
        Some(u) => trojan_at(u),
        None => None,
    }
}

/// The trojan proxy that a link spells.
pub fn parse_trojan(link: &str) -> (r: Option<Proxy>)
    ensures
        opt_proxy(r) == trojan_in(link@),
{
    match parse_url(&replace_first(link, "trojan://", "http://")) {
        Some(u) => trojan_of(&u),
        None => None,
    }
}

/// A link with the short scheme of hysteria written out.
pub open spec fn long_scheme(link: Seq<char>) -> Seq<char> {
    if begins(link, "hy2://"@) {
        replaced_first(link, "hy2://"@, "hysteria2://"@)
    } else {
        link
    }
}

/// The hysteria proxy that a link spells.
pub open spec fn hysteria2_in(link: Seq<char>) -> Option<ProxyView> {
    match address_of(long_scheme(link), "hysteria2://"@) {
        Some(u) => hysteria2_at(u),
        None => None,
    }
}

/// The hysteria proxy that a link spells.
pub fn parse_hysteria2(link: &str) -> (r: Option<Proxy>)
    ensures
        opt_proxy(r) == hysteria2_in(link@),
{
    let long = if starts_with(link, "hy2://") {
        replace_first(link, "hy2://", "hysteria2://")
    } else {
        link.to_string()
    };
    match parse_url(&replace_first(&long, "hysteria2://", "http://")) {
        Some(u) => hysteria2_of(&u),
        None => None,
    }
}

// ---------------------------------------------------------------------------
// Objects
// ---------------------------------------------------------------------------

/// The texts in the object that a vmess link spells.
#[derive(Debug)]
pub struct VmessFields {
    pub ps: Option<String>,
    pub add: Option<String>,
    pub port: Option<String>,
    pub id: Option<String>,
    pub aid: Option<String>,
    pub scy: Option<String>,
}

/// Those texts, as plain values.
pub struct VmessView {
    pub ps: Option<Seq<char>>,
    pub add: Option<Seq<char>>,
    pub port: Option<Seq<char>>,
    pub id: Option<Seq<char>>,
    pub aid: Option<Seq<char>>,
    pub scy: Option<Seq<char>>,
}

impl View for VmessFields {
    type V = VmessView;

    open spec fn view(&self) -> VmessView {
        VmessView {
            ps: opt_text(self.ps),
            add: opt_text(self.add),
            port: opt_text(self.port),
            id: opt_text(self.id),
            aid: opt_text(self.aid),
            scy: opt_text(self.scy),
        }
    }
}

/// The texts in a document that a vmess proxy is made of.
pub open spec fn vmess_fields(v: Json) -> VmessView {
    VmessView {
        ps: text_member(v, "ps"@),
        add: text_member(v, "add"@),
        port: text_member(v, "port"@),
        id: text_member(v, "id"@),
        aid: text_member(v, "aid"@),
        scy: text_member(v, "scy"@),
    }
}

/// The number up to 65535 that an optional text names, or else `other`.
pub open spec fn small_or(s: Option<Seq<char>>, other: u16) -> u16 {
    match s {
        Some(t) => match number_in(t, 10, u16::MAX as nat) {
            Some(n) => n as u16,
            None => other,
        },
        None => other,
    }
}

/// The vmess proxy that these texts describe.
pub open spec fn vmess_from(f: VmessView) -> ProxyView {
    let name = match f.ps {
        Some(ps) => safely_decoded(ps),
        None => or_else(f.add, "vmess"@),
    };
    ProxyView {
        uuid: Some(or_else(f.id, ""@)),
        alter_id: Some(small_or(f.aid, 0)),
        cipher: Some(or_else(f.scy, "auto"@)),
        ..bare(Protocol::Vmess, name, or_else(f.add, ""@), small_or(f.port, 443))
    }
}

fn parse_small(s: &Option<String>, other: u16) -> (r: u16)
    ensures
        r == small_or(opt_text(*s), other),
{
    match s {
        Some(t) => match parse_number(t, 10, u16::MAX as u128) {
            Some(n) => n as u16,
            None => other,
        },
        None => other,
    }
}

/// The vmess proxy that these texts describe.
pub fn vmess_of(f: VmessFields) -> (r: Proxy)
    ensures
        r@ == vmess_from(f@),
{
    let port = parse_small(&f.port, 443);
    let alter_id = parse_small(&f.aid, 0);
    let name = match &f.ps {
        Some(ps) => safe_decode(ps),
        None => text_or(copy_opt(&f.add), "vmess"),
    };
    let mut p = bare_proxy(Protocol::Vmess, name, text_or(f.add, ""), port);
    p.uuid = Some(text_or(f.id, ""));
    p.alter_id = Some(alter_id);
    p.cipher = Some(text_or(f.scy, "auto"));
    p
}

fn read_text(v: &serde_json::Value, key: &str) -> (r: Option<String>)
    ensures
        opt_text(r) == text_member(json_tree(*v), key@),
{
    match get_member(v, key) {
        Some(m) => as_text(m),
        None => None,
    }
}

/// The vmess proxy that a link spells.
pub open spec fn vmess_in(link: Seq<char>) -> Option<ProxyView> {
    match spelled(unprefixed(link, "vmess://"@)) {
        Some(text) => match json_read(encode_utf8(text)) {
            Some(v) => Some(vmess_from(vmess_fields(v))),
            None => None,
        },
        None => None,
    }
}

/// The vmess proxy that a link spells.
pub fn parse_vmess(link: &str) -> (r: Option<Proxy>)
    ensures
        opt_proxy(r) == vmess_in(link@),
{
    match normalize_base64(&strip_prefixes(link, "vmess://")) {
        Some(text) => match read_json(text.as_str().as_bytes()) {
            Some(v) => {
                let fields = VmessFields {
                    ps: read_text(&v, "ps"),
                    add: read_text(&v, "add"),
                    port: read_text(&v, "port"),
                    id: read_text(&v, "id"),
                    aid: read_text(&v, "aid"),
                    scy: read_text(&v, "scy"),
                };
                Some(vmess_of(fields))
            },
            None => None,
        },
        None => None,
    }
}

// ---------------------------------------------------------------------------
// Shadowsocks
// ---------------------------------------------------------------------------

/// The parts of `method:password` and of `host:port`.
pub open spec fn ss_parts(auth: Seq<char>, host: Seq<char>) -> Option<
    (Seq<char>, Seq<char>, Seq<char>, u16),
> {
    match (cut(auth, ":"@), cut(host, ":"@)) {
        (Some(a), Some(h)) => match number_in(h.1, 10, u16::MAX as nat) {
            Some(n) => Some((a.0, a.1, h.0, n as u16)),
            None => None,
        },
        _ => None,
    }
}

/// The method, password, host and port in a link without its name. The part
/// before the at sign may be in base64, or else all of it is.
pub open spec fn ss_body(base: Seq<char>) -> Option<(Seq<char>, Seq<char>, Seq<char>, u16)> {
    if holds_text(base, "@"@) {
        match cut(base, "@"@) {
            Some(p) => ss_parts(or_else(spelled(p.0), p.0), p.1),
            None => None,
        }
    } else {
        match spelled(base) {
            Some(text) => match cut(text, "@"@) {
                Some(p) => ss_parts(p.0, p.1),
                None => None,
            },
            None => None,
        }
    }
}

/// The shadowsocks proxy that a link spells. Its name is the decoded text
/// behind the number sign, or else the host.
pub open spec fn ss_in(link: Seq<char>) -> Option<ProxyView> {
    let raw = unprefixed(link, "ss://"@);
    let (base, tag) = match cut(raw, "#"@) {
        Some(p) => (p.0, safely_decoded(p.1)),
        None => (raw, Seq::empty()),
    };
    match ss_body(base) {
        Some(b) => Some(
            ProxyView {
                cipher: Some(b.0),
                password: Some(b.1),
                ..bare(
                    Protocol::Ss,
                    if tag.len() == 0 {
                        b.2
                    } else {
                        tag
                    },
                    b.2,
                    b.3,
                )
            },
        ),
        None => None,
    }
}

/// The texts and the number that such parts hold.
pub open spec fn opt_parts(p: Option<(String, String, String, u16)>) -> Option<
    (Seq<char>, Seq<char>, Seq<char>, u16),
> {
    match p {
        Some(t) => Some((t.0@, t.1@, t.2@, t.3)),
        None => None,
    }
}

fn split_ss(auth: &str, host: &str) -> (r: Option<(String, String, String, u16)>)
    ensures
        opt_parts(r) == ss_parts(auth@, host@),
{
    match (split_once(auth, ":"), split_once(host, ":")) {
        (Some(a), Some(h)) => match parse_number(&h.1, 10, u16::MAX as u128) {
            Some(n) => Some((a.0, a.1, h.0, n as u16)),
            None => None,
        },
        _ => None,
    }
}

fn read_ss_body(base: &str) -> (r: Option<(String, String, String, u16)>)
    ensures
        opt_parts(r) == ss_body(base@),
{
    if contains(base, "@") {
        match split_once(base, "@") {
            Some(p) => {
                let auth = text_or(normalize_base64(&p.0), &p.0);
                split_ss(&auth, &p.1)
            },
            None => None,
        }
    } else {
        match normalize_base64(base) {
            Some(text) => match split_once(&text, "@") {
                Some(p) => split_ss(&p.0, &p.1),
                None => None,
            },
            None => None,
        }
    }
}

/// The shadowsocks proxy that a link spells.
pub fn parse_ss(link: &str) -> (r: Option<Proxy>)
    ensures
        opt_proxy(r) == ss_in(link@),
{
    let raw = strip_prefixes(link, "ss://");
    let (base, tag) = match split_once(&raw, "#") {
        Some(p) => (p.0, safe_decode(&p.1)),
        None => (raw, String::new()),
    };
    match read_ss_body(&base) {
        Some(b) => {
            let name = if tag.as_str().is_empty() {
                b.2.clone()
            } else {
                tag
            };
            let mut p = bare_proxy(Protocol::Ss, name, b.2, b.3);
            p.cipher = Some(b.0);
            p.password = Some(b.1);
            Some(p)
        },
        None => None,
    }
}

// ---------------------------------------------------------------------------
// Links
// ---------------------------------------------------------------------------

/// The proxy that a link spells, by its scheme in either case.
pub open spec fn proxy_in(line: Seq<char>) -> Option<ProxyView> {
    let lower = lowercase(line);
    if begins(lower, "vless://"@) {
        vless_in(line)
    } else if begins(lower, "vmess://"@) {
        vmess_in(line)
    } else if begins(lower, "trojan://"@) {
        trojan_in(line)
    } else if begins(lower, "ss://"@) {
        ss_in(line)
    } else if begins(lower, "hy2://"@) || begins(lower, "hysteria2://"@) {
        hysteria2_in(line)
    } else {
        None
    }
}

/// The proxy that a link spells.
pub fn parse_proxy(line: &str) -> (r: Option<Proxy>)
    ensures
        opt_proxy(r) == proxy_in(line@),
{
    let lower = to_lowercase(line);
    if starts_with(&lower, "vless://") {
        parse_vless(line)
    } else if starts_with(&lower, "vmess://") {
        parse_vmess(line)
    } else if starts_with(&lower, "trojan://") {
        parse_trojan(line)
    } else if starts_with(&lower, "ss://") {
        parse_ss(line)
    } else if starts_with(&lower, "hy2://") || starts_with(&lower, "hysteria2://") {
        parse_hysteria2(line)
    } else {
        None
    }
}

/// An optional text that is there and not empty.
pub open spec fn has_text(s: Option<Seq<char>>) -> bool {
    match s {
        Some(t) => t.len() > 0,
        None => false,
    }
}

/// The proxy can be reached: it has a server, a port, and what its protocol
/// asks for.
pub open spec fn is_valid(p: ProxyView) -> bool {
    p.server.len() > 0 && p.port > 0 && (match p.protocol {
        Protocol::Vless | Protocol::Vmess => has_text(p.uuid),
        Protocol::Trojan | Protocol::Hysteria2 => has_text(p.password),
        Protocol::Ss => p.cipher is Some && p.password is Some,
    })
}

fn text_is_there(s: &Option<String>) -> (r: bool)
    ensures
        r == has_text(opt_text(*s)),
{
    match s {
        Some(t) => !t.as_str().is_empty(),
        None => false,
    }
}

/// Whether the proxy can be reached.
pub fn valid(p: &Proxy) -> (r: bool)
    ensures
        r == is_valid(p@),
{
    if p.server.as_str().is_empty() || p.port == 0 {
        return false;
    }
    match p.protocol {
        Protocol::Vless | Protocol::Vmess => text_is_there(&p.uuid),
        Protocol::Trojan | Protocol::Hysteria2 => text_is_there(&p.password),
        Protocol::Ss => p.cipher.is_some() && p.password.is_some(),
    }
}

// ---------------------------------------------------------------------------
// Laws
// ---------------------------------------------------------------------------

/// How many equals signs a text in base64 ends with.
pub open spec fn padding(code: Seq<char>) -> int {
    if code.len() >= 1 && code[code.len() - 1] == '=' {
        if code.len() >= 2 && code[code.len() - 2] == '=' {
            2
        } else {
            1
        }
    } else {
        0
    }
}

/// A text in base64 as it stands in addresses: without its padding, and with
/// other characters for the plus sign and the slash.
pub open spec fn for_address(code: Seq<char>) -> Seq<char> {
    with_char(with_char(code.take(code.len() - padding(code)), '+', '-'), '/', '_')
}

proof fn lemma_standard(v: Seq<char>, core: Seq<char>)
    requires
        v.len() == core.len(),
        forall|i: int|
            0 <= i < core.len() ==> is_base64_char(#[trigger] core[i]) && (v[i] == core[i] || (v[i]
                == '-' && core[i] == '+') || (v[i] == '_' && core[i] == '/')),
    ensures
        replaced(replaced(replaced(trimmed(v), "-"@, "+"@), "_"@, "/"@), " "@, ""@) == core,
{
    reveal_strlit("-");
    reveal_strlit("+");
    reveal_strlit("_");
    reveal_strlit("/");
    reveal_strlit(" ");
    assert("-"@ =~= seq!['-']);
    assert("+"@ =~= seq!['+']);
    assert("_"@ =~= seq!['_']);
    assert("/"@ =~= seq!['/']);
    assert(" "@ =~= seq![' ']);
    assert forall|i: int| 0 <= i < v.len() implies !WHITE@.contains(#[trigger] v[i]) by {
        assert(is_base64_char(core[i]));
        if WHITE@.contains(v[i]) {
            let k = WHITE@.index_of(v[i]);
            assert(WHITE@[k] == v[i]);
        }
    }
    bare_text_stays(v, WHITE@);
    replacing_a_character(v, '-', '+');
    let a = with_char(v, '-', '+');
    replacing_a_character(a, '_', '/');
    let b = with_char(a, '_', '/');
    assert(b =~= core) by {
        assert forall|i: int| 0 <= i < core.len() implies b[i] == core[i] by {
            assert(is_base64_char(core[i]));
        }
    }
    assert(!core.contains(' ')) by {
        if core.contains(' ') {
            let k = core.index_of(' ');
            assert(is_base64_char(core[k]));
        }
    }
    replacing_nothing(core, ' ', ""@);
}

proof fn lemma_code_is_ascii(s: Seq<char>)
    requires
        forall|i: int| 0 <= i < s.len() ==> is_base64_char(#[trigger] s[i]),
    ensures
        byte_len(s) == s.len(),
{
    assert(is_ascii_chars(s)) by {
        assert forall|i: int| 0 <= i < s.len() implies '\0' <= #[trigger] s[i] <= '\u{7f}' by {
            assert(is_base64_char(s[i]));
        }
    }
    is_ascii_chars_encode_utf8(s);
}

/// What base64 spells is read from the padded form, and from the form that
/// stands in addresses.
pub proof fn encoded_text_is_read(code: Seq<char>, text: Seq<char>)
    requires
        is_padded(code),
        code.len() > 0,
        base64_decoded(code) == Some(encode_utf8(text)),
    ensures
        spelled(code) == Some(text),
        spelled(for_address(code)) == Some(text),
{
    encode_utf8_valid_utf8(text);
    encode_utf8_decode_utf8(text);
    lemma_standard(code, code);
    lemma_code_is_ascii(code);
    assert(standard_code(code) == Some(code));
    let k = padding(code);
    let n = code.len() - k;
    let core = code.take(n);
    let v = for_address(code);
    assert forall|i: int| 0 <= i < core.len() implies is_base64_char(#[trigger] core[i]) by {
        assert(core[i] == code[i]);
    }
    lemma_standard(v, core);
    lemma_code_is_ascii(core);
    reveal_strlit("=");
    reveal_strlit("==");
    if k == 0 {
        assert(core =~= code);
    } else if k == 1 {
        assert(core + "="@ =~= code);
    } else {
        assert(core + "=="@ =~= code);
    }
}

proof fn lemma_cut_at_sign(a: Seq<char>, b: Seq<char>)
    requires
        !a.contains('@'),
    ensures
        cut(a + "@"@ + b, "@"@) == Some((a, b)),
        holds_text(a + "@"@ + b, "@"@),
{
    reveal_strlit("@");
    let s = a + "@"@ + b;
    let n = a.len() as int;
    assert forall|k: int| 0 <= k < n implies !occurs_at(s, "@"@, k) by {
        if occurs_at(s, "@"@, k) {
            assert(s.subrange(k, k + 1)[0] == '@');
            assert(a[k] == '@');
        }
    }
    assert(s.subrange(n, n + 1) =~= "@"@);
    assert(occurs_at(s, "@"@, n));
    lemma_find_from(s, "@"@, 0);
    assert(s.take(n) =~= a);
    assert(s.skip(n + 1) =~= b);
}

proof fn lemma_code_has_no_sign(code: Seq<char>)
    requires
        is_padded(code),
    ensures
        !code.contains('@'),
        !holds_text(code, "@"@),
{
    reveal_strlit("@");
    if code.contains('@') {
        let k = code.index_of('@');
        assert(is_base64_char(code[k]));
    }
    if holds_text(code, "@"@) {
        let k = choose|k: int| occurs_at(code, "@"@, k);
        assert(code.subrange(k, k + 1)[0] == '@');
        assert(is_base64_char(code[k]));
    }
}

/// A shadowsocks link says the same with only its method and password in base64
/// as with all of it.
pub proof fn both_shadowsocks_forms_agree(
    auth: Seq<char>,
    host: Seq<char>,
    part: Seq<char>,
    whole: Seq<char>,
)
    requires
        !auth.contains('@'),
        is_padded(part) && part.len() > 0,
        is_padded(whole) && whole.len() > 0,
        base64_decoded(part) == Some(encode_utf8(auth)),
        base64_decoded(whole) == Some(encode_utf8(auth + "@"@ + host)),
    ensures
        ss_body(part + "@"@ + host) == ss_parts(auth, host),
        ss_body(whole) == ss_parts(auth, host),
{
    encoded_text_is_read(part, auth);
    encoded_text_is_read(whole, auth + "@"@ + host);
    lemma_code_has_no_sign(part);
    lemma_code_has_no_sign(whole);
    lemma_cut_at_sign(part, host);
    lemma_cut_at_sign(auth, host);
}

/// A proxy in the form of an address stands at the host of the address, at the
/// port that is named, and at 443 only where none is; without a host there is no
/// proxy. Its name is the decoded fragment, or else the decoded host.
pub proof fn addressed_proxies_stand_where_the_address_says(u: UrlView)
    ensures
        u.host is None ==> vless_at(u) is None && trojan_at(u) is None && hysteria2_at(u) is None,
        u.host is Some ==> vless_at(u) is Some && trojan_at(u) is Some && hysteria2_at(u) is Some,
        forall|p: ProxyView| #[trigger]
            is_one_of_three(u, p) ==> {
                &&& u.host == Some(p.server)
                &&& u.port is Some ==> p.port == u.port->0
                &&& u.port is None ==> p.port == 443
                &&& u.fragment is Some ==> p.name == safely_decoded(u.fragment->0)
                &&& u.fragment is None ==> p.name == safely_decoded(p.server)
            },
{
}

/// `p` is what one of the protocols in the form of an address makes of `u`.
pub open spec fn is_one_of_three(u: UrlView, p: ProxyView) -> bool {
    vless_at(u) == Some(p) || trojan_at(u) == Some(p) || hysteria2_at(u) == Some(p)
}

/// The value of a key is that of the first pair with the key.
pub proof fn first_pair_gives_the_value(u: UrlView, key: Seq<char>, i: int)
    requires
        0 <= i < u.query.len(),
        u.query[i].0 == key,
        forall|j: int| 0 <= j < i ==> (#[trigger] u.query[j]).0 != key,
    ensures
        value_of(u, key) == Some(u.query[i].1),
{
    lemma_first_pair(u.query, key, i, 0);
}

proof fn lemma_first_pair(query: Seq<(Seq<char>, Seq<char>)>, key: Seq<char>, i: int, k: int)
    requires
        0 <= k <= i < query.len(),
        query[i].0 == key,
        forall|j: int| 0 <= j < i ==> (#[trigger] query[j]).0 != key,
    ensures
        value_from(query, key, k) == Some(query[i].1),
    decreases i - k,
{
    if k < i {
        lemma_first_pair(query, key, i, k + 1);
    }
}

/// A key that no pair has gives no value.
pub proof fn absent_keys_have_no_value(u: UrlView, key: Seq<char>)
    requires
        forall|j: int| 0 <= j < u.query.len() ==> (#[trigger] u.query[j]).0 != key,
    ensures
        value_of(u, key) is None,
{
    lemma_no_pair(u.query, key, 0);
}

proof fn lemma_no_pair(query: Seq<(Seq<char>, Seq<char>)>, key: Seq<char>, k: int)
    requires
        0 <= k <= query.len(),
        forall|j: int| 0 <= j < query.len() ==> (#[trigger] query[j]).0 != key,
    ensures
        value_from(query, key, k) is None,
    decreases query.len() - k,
{
    if k < query.len() {
        lemma_no_pair(query, key, k + 1);
    }
}

/// A vless proxy has the user of the address as its identity, is encrypted where
/// the address says `tls` or `reality`, and takes network, server name,
/// fingerprint and keys from the query.
pub proof fn vless_takes_its_settings_from_the_address(u: UrlView)
    requires
        u.host is Some,
    ensures
        ({
            let p = vless_at(u)->0;
            let security = value_of(u, "security"@);
            &&& p.protocol == Protocol::Vless
            &&& p.uuid == Some(u.user)
            &&& p.password is None && p.cipher is None && p.alter_id is None && p.sni is None
            &&& security == Some("tls"@) ==> p.tls == Some(true) && p.reality is None
            &&& security == Some("reality"@) ==> p.tls == Some(true) && p.reality is Some
            &&& security is None ==> p.tls == Some(false) && p.reality is None
            &&& security is Some && security != Some("tls"@) && security != Some("reality"@)
                ==> p.tls == Some(false) && p.reality is None
            &&& value_of(u, "type"@) is Some ==> p.network == value_of(u, "type"@)
            &&& value_of(u, "type"@) is None ==> p.network == Some("tcp"@)
            &&& p.servername == value_of(u, "sni"@)
            &&& p.client_fingerprint == value_of(u, "fp"@)
            &&& p.reality is Some && value_of(u, "pbk"@) is Some ==> Some(p.reality->0.public_key)
                == value_of(u, "pbk"@)
            &&& p.reality is Some && value_of(u, "pbk"@) is None ==> p.reality->0.public_key.len()
                == 0
            &&& p.reality is Some ==> p.reality->0.short_id == value_of(u, "sid"@)
        }),
{
    reveal_strlit("");
    reveal_strlit("tls");
    reveal_strlit("reality");
    assert(""@.len() == 0 && "tls"@.len() == 3 && "reality"@.len() == 7);
}

/// A trojan proxy has the decoded user of the address as its password, is always
/// encrypted, and takes network and server name from the query.
pub proof fn trojan_takes_its_settings_from_the_address(u: UrlView)
    requires
        u.host is Some,
    ensures
        ({
            let p = trojan_at(u)->0;
            &&& p.protocol == Protocol::Trojan
            &&& p.password == Some(safely_decoded(u.user))
            &&& p.tls == Some(true)
            &&& value_of(u, "type"@) is Some ==> p.network == value_of(u, "type"@)
            &&& value_of(u, "type"@) is None ==> p.network == Some("tcp"@)
            &&& p.servername == value_of(u, "sni"@)
            &&& p.uuid is None && p.cipher is None && p.alter_id is None && p.sni is None
            &&& p.reality is None && p.client_fingerprint is None
        }),
{
}

/// A hysteria proxy has the decoded user of the address as its password and takes
/// the name it asks for from the query.
pub proof fn hysteria_takes_its_settings_from_the_address(u: UrlView)
    requires
        u.host is Some,
    ensures
        ({
            let p = hysteria2_at(u)->0;
            &&& p.protocol == Protocol::Hysteria2
            &&& p.password == Some(safely_decoded(u.user))
            &&& p.sni == value_of(u, "sni"@)
            &&& p.uuid is None && p.cipher is None && p.alter_id is None && p.tls is None
            &&& p.network is None && p.servername is None && p.reality is None
            &&& p.client_fingerprint is None
        }),
{
}

/// A vmess proxy stands at the address of its object, at the port that the object
/// spells and at 443 where it spells none up to 65535, with the identity, the
/// number and the cipher of the object.
pub proof fn vmess_takes_its_settings_from_the_object(f: VmessView)
    ensures
        ({
            let p = vmess_from(f);
            &&& p.protocol == Protocol::Vmess
            &&& f.add is Some ==> p.server == f.add->0
            &&& f.add is None ==> p.server.len() == 0
            &&& f.id is Some ==> p.uuid == f.id
            &&& f.id is None ==> p.uuid is Some && p.uuid->0.len() == 0
            &&& f.scy is Some ==> p.cipher == f.scy
            &&& f.scy is None ==> p.cipher == Some("auto"@)
            &&& f.ps is Some ==> p.name == safely_decoded(f.ps->0)
            &&& f.ps is None && f.add is Some ==> p.name == f.add->0
            &&& f.ps is None && f.add is None ==> p.name == "vmess"@
            &&& f.port is None ==> p.port == 443
            &&& f.aid is None ==> p.alter_id == Some(0u16)
            &&& p.password is None && p.tls is None && p.network is None && p.servername is None
            &&& p.reality is None && p.sni is None && p.client_fingerprint is None
        }),
        forall|n: u16|
            f.port == Some(#[trigger] decimal(n as nat)) ==> vmess_from(f).port == n,
        forall|n: u16|
            f.aid == Some(#[trigger] decimal(n as nat)) ==> vmess_from(f).alter_id == Some(n),
{
    reveal_strlit("");
    assert forall|n: u16| f.port == Some(#[trigger] decimal(n as nat)) implies vmess_from(f).port
        == n by {
        decimal_reads_back(n as nat, u16::MAX as nat);
    }
    assert forall|n: u16| f.aid == Some(#[trigger] decimal(n as nat)) implies vmess_from(f).alter_id
        == Some(n) by {
        decimal_reads_back(n as nat, u16::MAX as nat);
    }
}

proof fn lemma_cut_at(a: Seq<char>, c: char, b: Seq<char>, sep: Seq<char>)
    requires
        sep == seq![c],
        !a.contains(c),
    ensures
        cut(a + sep + b, sep) == Some((a, b)),
{
    let s = a + sep + b;
    let n = a.len() as int;
    assert forall|k: int| 0 <= k < n implies !occurs_at(s, sep, k) by {
        if occurs_at(s, sep, k) {
            assert(s.subrange(k, k + 1)[0] == c);
            assert(a[k] == c);
        }
    }
    assert(s.subrange(n, n + 1) =~= sep);
    assert(occurs_at(s, sep, n));
    lemma_find_from(s, sep, 0);
    assert(s.take(n) =~= a);
    assert(s.skip(n + 1) =~= b);
}

/// A shadowsocks link in plain form has the method before the first colon, the
/// password behind it, and the host and port behind the at sign; the same holds
/// where the part before the at sign is in base64.
pub proof fn shadowsocks_parts_are_told_apart(
    method: Seq<char>,
    password: Seq<char>,
    host: Seq<char>,
    port: u16,
)
    requires
        !method.contains(':'),
        !host.contains(':'),
    ensures
        ss_parts(method + ":"@ + password, host + ":"@ + decimal(port as nat)) == Some(
            (method, password, host, port),
        ),
{
    reveal_strlit(":");
    assert(":"@ =~= seq![':']);
    lemma_cut_at(method, ':', password, ":"@);
    lemma_cut_at(host, ':', decimal(port as nat), ":"@);
    decimal_reads_back(port as nat, u16::MAX as nat);
}

/// What a shadowsocks link says of method, password, host and port stands in the
/// proxy, and its name is what follows the number sign or else the host.
pub proof fn shadowsocks_proxies_hold_their_parts(raw: Seq<char>, tag: Seq<char>)
    requires
        !raw.contains('#'),
        ss_body(raw) is Some,
        !begins(raw, "ss://"@),
        !begins(raw + "#"@ + tag, "ss://"@),
    ensures
        ({
            let b = ss_body(raw)->0;
            let plain = ss_in(raw);
            let named = ss_in(raw + "#"@ + tag);
            &&& plain is Some && named is Some
            &&& plain->0 == (ProxyView {
                cipher: Some(b.0),
                password: Some(b.1),
                ..bare(Protocol::Ss, b.2, b.2, b.3)
            })
            &&& safely_decoded(tag).len() > 0 ==> named->0 == (ProxyView {
                name: safely_decoded(tag),
                ..plain->0
            })
            &&& safely_decoded(tag).len() == 0 ==> named == plain
        }),
{
    reveal_strlit("#");
    assert("#"@ =~= seq!['#']);
    lemma_cut_at(raw, '#', tag, "#"@);
    assert(cut(raw, "#"@) is None) by {
        lemma_find_from(raw, "#"@, 0);
        match find_from(raw, "#"@, 0) {
            Some(i) => {
                assert(raw.subrange(i, i + 1)[0] == '#');
                assert(raw[i] == '#');
            },
            None => {},
        }
    }
    assert(unprefixed(raw, "ss://"@) == raw);
    assert(unprefixed(raw + "#"@ + tag, "ss://"@) == raw + "#"@ + tag);
}

/// A proxy can be reached exactly where it has a server, a port above zero, and
/// an identity, a password, or a cipher and a password, as its protocol asks.
pub proof fn reachable_proxies_have_what_they_need(p: ProxyView)
    ensures
        is_valid(p) ==> p.server.len() > 0 && p.port > 0,
        is_valid(p) && p.protocol == Protocol::Vless ==> p.uuid is Some && p.uuid->0.len() > 0,
        is_valid(p) && p.protocol == Protocol::Vmess ==> p.uuid is Some && p.uuid->0.len() > 0,
        is_valid(p) && p.protocol == Protocol::Trojan ==> p.password is Some
            && p.password->0.len() > 0,
        is_valid(p) && p.protocol == Protocol::Hysteria2 ==> p.password is Some
            && p.password->0.len() > 0,
        is_valid(p) && p.protocol == Protocol::Ss ==> p.cipher is Some && p.password is Some,
        p.server.len() > 0 && p.port > 0 && p.uuid is Some && p.uuid->0.len() > 0 && p.password
            is Some && p.password->0.len() > 0 && p.cipher is Some ==> is_valid(p),
        p.server.len() > 0 && p.port > 0 && p.uuid is Some && p.uuid->0.len() > 0 && (p.protocol
            == Protocol::Vless || p.protocol == Protocol::Vmess) ==> is_valid(p),
        p.server.len() > 0 && p.port > 0 && p.password is Some && p.password->0.len() > 0 && (
        p.protocol == Protocol::Trojan || p.protocol == Protocol::Hysteria2) ==> is_valid(p),
        p.server.len() > 0 && p.port > 0 && p.password is Some && p.cipher is Some && p.protocol
            == Protocol::Ss ==> is_valid(p),
{
}

/// A link is read by the protocol that its scheme names, in whatever case, and a
/// link with another scheme spells no proxy.
pub proof fn schemes_choose_the_protocol(line: Seq<char>, scheme: Seq<char>, rest: Seq<char>)
    requires
        lowercase(line) == scheme + "://"@ + rest,
        !scheme.contains(':'),
    ensures
        scheme == "vless"@ ==> proxy_in(line) == vless_in(line),
        scheme == "vmess"@ ==> proxy_in(line) == vmess_in(line),
        scheme == "trojan"@ ==> proxy_in(line) == trojan_in(line),
        scheme == "ss"@ ==> proxy_in(line) == ss_in(line),
        scheme == "hy2"@ || scheme == "hysteria2"@ ==> proxy_in(line) == hysteria2_in(line),
        scheme != "vless"@ && scheme != "vmess"@ && scheme != "trojan"@ && scheme != "ss"@
            && scheme != "hy2"@ && scheme != "hysteria2"@ ==> proxy_in(line) is None,
{
    reveal_strlit("://");
    reveal_strlit("vless");
    reveal_strlit("vmess");
    reveal_strlit("trojan");
    reveal_strlit("ss");
    reveal_strlit("hy2");
    reveal_strlit("hysteria2");
    reveal_strlit("vless://");
    reveal_strlit("vmess://");
    reveal_strlit("trojan://");
    reveal_strlit("ss://");
    reveal_strlit("hy2://");
    reveal_strlit("hysteria2://");
    let s = lowercase(line);
    assert("vless"@[1] != "vmess"@[1]);
    assert("ss"@.len() == 2 && "hy2"@.len() == 3 && "hysteria2"@.len() == 9);
    assert("trojan"@.len() == 6);
    assert("vless://"@ =~= "vless"@ + "://"@);
    assert("vmess://"@ =~= "vmess"@ + "://"@);
    assert("trojan://"@ =~= "trojan"@ + "://"@);
    assert("ss://"@ =~= "ss"@ + "://"@);
    assert("hy2://"@ =~= "hy2"@ + "://"@);
    assert("hysteria2://"@ =~= "hysteria2"@ + "://"@);
    lemma_scheme(s, scheme, rest, "vless"@);
    lemma_scheme(s, scheme, rest, "vmess"@);
    lemma_scheme(s, scheme, rest, "trojan"@);
    lemma_scheme(s, scheme, rest, "ss"@);
    lemma_scheme(s, scheme, rest, "hy2"@);
    lemma_scheme(s, scheme, rest, "hysteria2"@);
}

proof fn lemma_scheme(s: Seq<char>, scheme: Seq<char>, rest: Seq<char>, name: Seq<char>)
    requires
        s == scheme + "://"@ + rest,
        !scheme.contains(':'),
        !name.contains(':'),
    ensures
        begins(s, name + "://"@) <==> scheme == name,
{
    reveal_strlit("://");
    let p = name + "://"@;
    let n = name.len() as int;
    let m = scheme.len() as int;
    if scheme == name {
        assert(s.subrange(0, p.len() as int) =~= p);
    }
    if begins(s, p) {
        assert(s.subrange(0, p.len() as int)[n] == ':');
        assert(s[n] == ':');
        assert(s[m] == ':');
        if n < m {
            assert(scheme[n] == ':');
        }
        if m < n {
            assert(s.subrange(0, p.len() as int)[m] == name[m]);
        }
        assert(scheme =~= s.take(m));
        assert(name =~= s.subrange(0, p.len() as int).take(n));
        assert(s.subrange(0, p.len() as int).take(n) =~= s.take(n));
    }
}

} // verus!
