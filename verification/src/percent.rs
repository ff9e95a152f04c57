//! Percent-encoded texts.

use vstd::prelude::*;
use vstd::utf8::{
    encode_utf8, encode_utf8_decode_utf8, encode_utf8_valid_utf8, is_ascii_chars,
    is_ascii_chars_encode_utf8,
};

use crate::numbers::{number_in, numeral, parse_number};
use crate::outside::{text_of_utf8_lossy, utf8_lossy};
use crate::text::{from_chars, push_text, to_chars, trim, trimmed};

verus! {

// ---------------------------------------------------------------------------
// Encoding
// ---------------------------------------------------------------------------

/// `b` is a letter, a digit or one of the four marks that stand for themselves.
pub open spec fn is_plain(b: u8) -> bool {
    ||| 97 <= b <= 122
    ||| 65 <= b <= 90
    ||| 48 <= b <= 57
    ||| b == 45
    ||| b == 46
    ||| b == 95
    ||| b == 126
}

/// The hexadecimal digit with the value `n`, in upper case.
pub open spec fn hex_digit(n: int) -> char {
    if n < 10 {
        (48 + n) as char
    } else {
        (55 + n) as char
    }
}

/// A byte in percent encoding.
pub open spec fn encoded_byte(b: u8) -> Seq<char> {
    if is_plain(b) {
        seq![b as char]
    } else {
        seq!['%', hex_digit(b as int / 16), hex_digit(b as int % 16)]
    }
}

/// The bytes from position `i` on in percent encoding.
pub open spec fn encoded_from(bytes: Seq<u8>, i: int) -> Seq<char>
    decreases bytes.len() - i,
{
    if i < 0 || i >= bytes.len() {
        Seq::empty()
    } else {
        encoded_byte(bytes[i]) + encoded_from(bytes, i + 1)
    }
}

/// `s` in percent encoding.
pub open spec fn percent_encoded(s: Seq<char>) -> Seq<char> {
    encoded_from(encode_utf8(s), 0)
}

fn hex_char(n: u8) -> (r: char)
    requires
        n < 16,
    ensures
        r == hex_digit(n as int),
{
    if n < 10 {
        (48 + n) as char
    } else {
        (55 + n) as char
    }
}

/// `s` in percent encoding.
pub fn percent_encode(s: &str) -> (r: String)
    ensures
        r@ == percent_encoded(s@),
{
    let bytes = s.as_bytes();
    let mut out = String::new();
    for i in 0..bytes.len()
        invariant
            bytes@ == encode_utf8(s@),
            out@ + encoded_from(bytes@, i as int) == encoded_from(bytes@, 0),
    {
        let ghost prev = out@;
        let b: u8 = bytes[i];
        if (97 <= b && b <= 122) || (65 <= b && b <= 90) || (48 <= b && b <= 57) || b == 45 || b
            == 46 || b == 95 || b == 126 {
            out.push(b as char);
        } else {
            out.push('%');
            out.push(hex_char(b / 16));
            out.push(hex_char(b % 16));
        }
        assert(out@ =~= prev + encoded_byte(b));
        assert(out@ + encoded_from(bytes@, i + 1) =~= prev + encoded_from(bytes@, i as int));
    }
    assert(out@ =~= encoded_from(bytes@, 0));
    out
}

// ---------------------------------------------------------------------------
// Decoding
// ---------------------------------------------------------------------------

/// The up to two characters of `s` behind position `i`.
pub open spec fn escape_at(s: Seq<char>, i: int) -> Seq<char> {
    s.subrange(i + 1, if i + 3 <= s.len() {
        i + 3
    } else {
        s.len() as int
    })
}

/// What stands at position `i` of `s`, decoded: an escape is the character
/// with the number that it names, and a plus sign is a space.
pub open spec fn unit_at(s: Seq<char>, i: int) -> Seq<char> {
    if s[i] == '%' {
        match number_in(escape_at(s, i), 16, 255) {
            Some(b) => seq![b as char],
            None => seq!['%'] + escape_at(s, i),
        }
    } else if s[i] == '+' {
        seq![' ']
    } else {
        seq![s[i]]
    }
}

/// What stands at position `i` of `s`, decoded to bytes: an escape is the byte
/// that it names, a plus sign is a space, and a character is its UTF-8 form.
pub open spec fn bytes_at(s: Seq<char>, i: int) -> Seq<u8> {
    if s[i] == '%' {
        match number_in(escape_at(s, i), 16, 255) {
            Some(b) => seq![b as u8],
            None => encode_utf8(seq!['%'] + escape_at(s, i)),
        }
    } else if s[i] == '+' {
        seq![32]
    } else {
        encode_utf8(seq![s[i]])
    }
}

/// Where what stands at position `i` of `s` ends.
pub open spec fn unit_end(s: Seq<char>, i: int) -> int {
    if s[i] == '%' {
        i + 1 + escape_at(s, i).len()
    } else {
        i + 1
    }
}

/// `s` from position `i` on, decoded character by character.
pub open spec fn decoded_from(s: Seq<char>, i: int) -> Seq<char>
    decreases s.len() - i,
{
    if i < 0 || i >= s.len() {
        Seq::empty()
    } else {
        unit_at(s, i) + decoded_from(s, unit_end(s, i))
    }
}

/// `s` from position `i` on, decoded to bytes.
pub open spec fn decoded_bytes_from(s: Seq<char>, i: int) -> Seq<u8>
    decreases s.len() - i,
{
    if i < 0 || i >= s.len() {
        Seq::empty()
    } else {
        bytes_at(s, i) + decoded_bytes_from(s, unit_end(s, i))
    }
}

/// `s`, decoded character by character.
pub open spec fn percent_decoded(s: Seq<char>) -> Seq<char> {
    decoded_from(s, 0)
}

/// `s`, decoded to bytes that are then read as UTF-8, without white space at
/// either end.
pub open spec fn safely_decoded(s: Seq<char>) -> Seq<char> {
    trimmed(utf8_lossy(decoded_bytes_from(s, 0)))
}

/// `s`, decoded character by character: an escape is the character with the
/// number that it names.
pub fn percent_decode(s: &str) -> (r: String)
    ensures
        r@ == percent_decoded(s@),
{
    let sc = to_chars(s);
    let n: usize = sc.len();
    let mut out = String::new();
    let mut i: usize = 0;
    while i < n
        invariant
            sc@ == s@,
            n == s@.len(),
            i <= n,
            out@ + decoded_from(s@, i as int) == decoded_from(s@, 0),
        decreases n - i,
    {
        let ghost prev = out@;
        let ghost at = i as int;
        if sc[i] == '%' {
            let end: usize = if n - i >= 3 {
                i + 3
            } else {
                n
            };
            let hex = from_chars(&sc, i + 1, end);
            match parse_number(&hex, 16, 255) {
                Some(b) => {
                    out.push(b as u8 as char);
                },
                None => {
                    out.push('%');
                    push_text(&mut out, &hex);
                },
            }
            i = end;
        } else if sc[i] == '+' {
            out.push(' ');
            i += 1;
        } else {
            out.push(sc[i]);
            i += 1;
        }
        assert(out@ =~= prev + unit_at(s@, at));
        assert(out@ + decoded_from(s@, i as int) =~= prev + decoded_from(s@, at));
    }
    assert(out@ =~= decoded_from(s@, 0));
    out
}

fn push_utf8(out: &mut Vec<u8>, s: &str)
    ensures
        final(out)@ == old(out)@ + encode_utf8(s@),
{
    let ghost before = out@;
    let bytes = s.as_bytes();
    for i in 0..bytes.len()
        invariant
            bytes@ == encode_utf8(s@),
            out@ == before + bytes@.take(i as int),
    {
        out.push(bytes[i]);
        assert(before + bytes@.take(i + 1) =~= (before + bytes@.take(i as int)).push(
            bytes@[i as int],
        ));
    }
    assert(bytes@.take(bytes@.len() as int) =~= bytes@);
}

/// `s`, decoded to bytes that are then read as UTF-8, without white space at
/// either end.
pub fn safe_decode(s: &str) -> (r: String)
    ensures
        r@ == safely_decoded(s@),
        forall|t: Seq<char>| s@ == #[trigger] percent_encoded(t) ==> r@ == trimmed(t),
{
    let sc = to_chars(s);
    let n: usize = sc.len();
    let mut out: Vec<u8> = Vec::new();
    let mut i: usize = 0;
    while i < n
        invariant
            sc@ == s@,
            n == s@.len(),
            i <= n,
            out@ + decoded_bytes_from(s@, i as int) == decoded_bytes_from(s@, 0),
        decreases n - i,
    {
        let ghost prev = out@;
        let ghost at = i as int;
        if sc[i] == '%' {
            let end: usize = if n - i >= 3 {
                i + 3
            } else {
                n
            };
            let hex = from_chars(&sc, i + 1, end);
            match parse_number(&hex, 16, 255) {
                Some(b) => {
                    out.push(b as u8);
                },
                None => {
                    let raw = from_chars(&sc, i, end);
                    push_utf8(&mut out, &raw);
                    assert(raw@ =~= seq!['%'] + hex@);
                },
            }
            i = end;
        } else if sc[i] == '+' {
            out.push(32);
            i += 1;
        } else {
            let one = from_chars(&sc, i, i + 1);
            push_utf8(&mut out, &one);
            assert(one@ =~= seq![s@[at]]);
            i += 1;
        }
        assert(out@ =~= prev + bytes_at(s@, at));
        assert(out@ + decoded_bytes_from(s@, i as int) =~= prev + decoded_bytes_from(s@, at));
    }
    assert(out@ =~= decoded_bytes_from(s@, 0));
    let decoded = text_of_utf8_lossy(&out);
    proof {
        assert forall|t: Seq<char>| s@ == #[trigger] percent_encoded(t) implies decoded@ == t by {
            bytes_come_back(t);
            encode_utf8_valid_utf8(t);
            encode_utf8_decode_utf8(t);
            encode_utf8_decode_utf8(decoded@);
        }
    }
    trim(&decoded)
}

// ---------------------------------------------------------------------------
// Laws
// ---------------------------------------------------------------------------

proof fn lemma_hex_pair(b: u8)
    ensures
        number_in(seq![hex_digit(b as int / 16), hex_digit(b as int % 16)], 16, 255) == Some(
            b as nat,
        ),
{
    let h = hex_digit(b as int / 16);
    let l = hex_digit(b as int % 16);
    let s = seq![h, l];
    reveal_with_fuel(numeral, 3);
    assert(s.drop_last() =~= seq![h]);
    assert(seq![h].drop_last() =~= Seq::<char>::empty());
    assert(numeral(s, 16) == Some(b as nat));
}

/// What is decoded from the encoding of the bytes from `j` on, where it stands behind `head`.
proof fn lemma_bytes_come_back(bytes: Seq<u8>, j: int, head: Seq<char>)
    requires
        0 <= j <= bytes.len(),
    ensures
        decoded_bytes_from(head + encoded_from(bytes, j), head.len() as int) == bytes.skip(j),
    decreases bytes.len() - j,
{
    let s = head + encoded_from(bytes, j);
    let n = head.len() as int;
    if j == bytes.len() {
        assert(decoded_bytes_from(s, n) =~= bytes.skip(j));
    } else {
        let b = bytes[j];
        let e = encoded_byte(b);
        let rest = encoded_from(bytes, j + 1);
        assert(s =~= (head + e) + rest);
        lemma_bytes_come_back(bytes, j + 1, head + e);
        assert(s[n] == e[0]);
        if is_plain(b) {
            let c = b as char;
            assert(is_ascii_chars(seq![c]));
            is_ascii_chars_encode_utf8(seq![c]);
            assert(encode_utf8(seq![c]) =~= seq![b]);
        } else {
            assert(escape_at(s, n) =~= seq![
                hex_digit(b as int / 16),
                hex_digit(b as int % 16),
            ]);
            lemma_hex_pair(b);
        }
        assert(bytes_at(s, n) =~= seq![b]);
        assert(unit_end(s, n) == (head + e).len());
        assert(bytes.skip(j) =~= seq![b] + bytes.skip(j + 1));
    }
}

/// The bytes of a text come back from its percent encoding.
pub proof fn bytes_come_back(t: Seq<char>)
    ensures
        decoded_bytes_from(percent_encoded(t), 0) == encode_utf8(t),
{
    let bytes = encode_utf8(t);
    lemma_bytes_come_back(bytes, 0, Seq::empty());
    assert(Seq::<char>::empty() + encoded_from(bytes, 0) =~= percent_encoded(t));
    assert(bytes.skip(0) =~= bytes);
}

proof fn lemma_chars_come_back(bytes: Seq<u8>, j: int, head: Seq<char>)
    requires
        0 <= j <= bytes.len(),
    ensures
        decoded_from(head + encoded_from(bytes, j), head.len() as int) == Seq::new(
            (bytes.len() - j) as nat,
            |i: int| bytes[j + i] as char,
        ),
    decreases bytes.len() - j,
{
    let s = head + encoded_from(bytes, j);
    let n = head.len() as int;
    let all = Seq::new((bytes.len() - j) as nat, |i: int| bytes[j + i] as char);
    if j == bytes.len() {
        assert(decoded_from(s, n) =~= all);
    } else {
        let b = bytes[j];
        let e = encoded_byte(b);
        let rest = encoded_from(bytes, j + 1);
        assert(s =~= (head + e) + rest);
        lemma_chars_come_back(bytes, j + 1, head + e);
        assert(s[n] == e[0]);
        if !is_plain(b) {
            assert(escape_at(s, n) =~= seq![
                hex_digit(b as int / 16),
                hex_digit(b as int % 16),
            ]);
            lemma_hex_pair(b);
        }
        assert(unit_at(s, n) =~= seq![b as char]);
        assert(unit_end(s, n) == (head + e).len());
        let tail = Seq::new((bytes.len() - (j + 1)) as nat, |i: int| bytes[j + 1 + i] as char);
        assert(all =~= seq![b as char] + tail);
    }
}

/// An ASCII text comes back from its percent encoding, character by character.
pub proof fn ascii_comes_back(t: Seq<char>)
    requires
        is_ascii_chars(t),
    ensures
        percent_decoded(percent_encoded(t)) == t,
{
    let bytes = encode_utf8(t);
    is_ascii_chars_encode_utf8(t);
    lemma_chars_come_back(bytes, 0, Seq::empty());
    assert(Seq::<char>::empty() + encoded_from(bytes, 0) =~= percent_encoded(t));
    assert forall|i: int| 0 <= i < t.len() implies bytes[i] as char == t[i] by {
        assert(t[i] as u8 == bytes[i]);
    }
    assert(Seq::new(bytes.len(), |i: int| bytes[0 + i] as char) =~= t);
}

proof fn lemma_encoded_is_plain(bytes: Seq<u8>, i: int, k: int)
    requires
        0 <= i <= bytes.len(),
        0 <= k < encoded_from(bytes, i).len(),
    ensures
        encoded_from(bytes, i)[k] == '%' || (exists|b: u8| #[trigger]
            is_plain(b) && encoded_from(bytes, i)[k] == b as char),
    decreases bytes.len() - i,
{
    let e = encoded_byte(bytes[i]);
    if k < e.len() {
        if is_plain(bytes[i]) {
            assert(is_plain(bytes[i]) && e[k] == bytes[i] as char);
        } else if k > 0 {
            let v = if k == 1 {
                bytes[i] as int / 16
            } else {
                bytes[i] as int % 16
            };
            let d = if v < 10 {
                (48 + v) as u8
            } else {
                (55 + v) as u8
            };
            assert(is_plain(d) && e[k] == d as char);
        }
    } else {
        lemma_encoded_is_plain(bytes, i + 1, k - e.len());
    }
}

/// A percent encoding holds nothing but plain characters and percent signs; so
/// it holds no white space and no number sign.
pub proof fn encoding_is_plain(t: Seq<char>, k: int)
    requires
        0 <= k < percent_encoded(t).len(),
    ensures
        percent_encoded(t)[k] == '%' || (exists|b: u8| #[trigger]
            is_plain(b) && percent_encoded(t)[k] == b as char),
{
    lemma_encoded_is_plain(encode_utf8(t), 0, k);
}

} // verus!
