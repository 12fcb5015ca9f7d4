//! Small pure helpers of the device protocol: the short device id, the
//! cache-busting image filename and URL, and percent-encoding of query
//! parameters.

use vstd::prelude::*;
use vstd::string::StringSliceAdditionalSpecFns;
use crate::text::{chars_of, dec_int, push_all, push_int, push_str, string_from_chars};

verus! {

/// ASCII hexadecimal digit (`char::is_ascii_hexdigit`).
pub open spec fn is_hex(c: char) -> bool {
    ('0' <= c && c <= '9') || ('a' <= c && c <= 'f') || ('A' <= c && c <= 'F')
}

/// ASCII upper-casing of one character.
pub open spec fn ascii_upper(c: char) -> char {
    if 'a' <= c && c <= 'z' {
        ((c as u32) - 32) as char
    } else {
        c
    }
}

/// The hexadecimal digits of `s`, in order.
pub open spec fn hex_only(s: Seq<char>) -> Seq<char>
    decreases s.len(),
{
    if s.len() == 0 {
        seq![]
    } else if is_hex(s.last()) {
        hex_only(s.drop_last()).push(s.last())
    } else {
        hex_only(s.drop_last())
    }
}

/// Short friendly id: the last six hex digits of the MAC, upper-cased.
pub open spec fn spec_mac_short_id(mac: Seq<char>) -> Seq<char> {
    let h = hex_only(mac);
    let tail = if h.len() >= 6 { h.skip(h.len() - 6) } else { h };
    tail.map_values(|c: char| ascii_upper(c))
}

fn upper_ascii(c: char) -> (r: char)
    ensures
        r == ascii_upper(c),
{
    if 'a' <= c && c <= 'z' {
        let u = ((c as u32) - 32) as u8;
        u as char
    } else {
        c
    }
}

/// Last six hex digits of a MAC address, upper-cased.
pub fn mac_short_id(mac: &str) -> (r: String)
    ensures
        r@ == spec_mac_short_id(mac@),
{
    let cs = chars_of(mac);
    let mut hex: Vec<char> = Vec::new();
    let mut i: usize = 0;
    while i < cs.len()
        invariant
            i <= cs@.len(),
            hex@ == hex_only(cs@.take(i as int)),
        decreases cs.len() - i,
    {
        let c = cs[i];
        assert(cs@.take(i + 1).drop_last() == cs@.take(i as int));
        if ('0' <= c && c <= '9') || ('a' <= c && c <= 'f') || ('A' <= c && c <= 'F') {
            hex.push(c);
        }
        i += 1;
    }
    assert(cs@.take(cs@.len() as int) == cs@);
    let start = if hex.len() >= 6 { hex.len() - 6 } else { 0 };
    let ghost tail = hex@.skip(start as int);
    let mut out: Vec<char> = Vec::new();
    let mut k = start;
    while k < hex.len()
        invariant
            start <= k <= hex@.len(),
            tail == hex@.skip(start as int),
            out@ == tail.take(k - start).map_values(|c: char| ascii_upper(c)),
        decreases hex.len() - k,
    {
        out.push(upper_ascii(hex[k]));
        assert(tail.take(k + 1 - start) == tail.take(k - start).push(hex@[k as int]));
        assert(tail.take(k + 1 - start).map_values(|c: char| ascii_upper(c)) == tail.take(k - start).map_values(|c: char| ascii_upper(c)).push(ascii_upper(hex@[k as int])));
        k += 1;
    }
    assert(tail.take(hex@.len() - start) == tail);
    string_from_chars(&out)
}

/// `dashboard-<epoch>.png`: the file name the firmware dedupes on.
pub fn dashboard_filename(epoch: i64) -> (r: String)
    ensures
        r@ == "dashboard-"@ + dec_int(epoch as int) + ".png"@,
{
    let mut v: Vec<char> = Vec::new();
    push_str(&mut v, "dashboard-");
    push_int(&mut v, epoch);
    push_str(&mut v, ".png");
    string_from_chars(&v)
}

/// `<base>/dashboard/<epoch>`: the URL the firmware downloads.
pub fn dashboard_url(base: &str, epoch: i64) -> (r: String)
    ensures
        r@ == base@ + "/dashboard/"@ + dec_int(epoch as int),
{
    let mut v: Vec<char> = Vec::new();
    push_str(&mut v, base);
    push_str(&mut v, "/dashboard/");
    push_int(&mut v, epoch);
    string_from_chars(&v)
}

/// Bytes left as they are by percent-encoding: ASCII letters and digits
/// and `_ - . ~`.
pub open spec fn is_unreserved(b: u8) -> bool {
    ||| (0x30 <= b && b <= 0x39)
    ||| (0x41 <= b && b <= 0x5a)
    ||| (0x61 <= b && b <= 0x7a)
    ||| b == 0x5f
    ||| b == 0x2d
    ||| b == 0x2e
    ||| b == 0x7e
}

/// Upper-case hexadecimal digit for `d < 16`.
pub open spec fn hex_digit(d: int) -> char {
    if d < 10 {
        (('0' as int) + d) as char
    } else {
        (('A' as int) + d - 10) as char
    }
}

/// What one byte is percent-encoded as: an unreserved byte as itself,
/// any other as `%` and two upper-case hex digits.
pub open spec fn url_token(b: u8) -> Seq<char> {
    if is_unreserved(b) {
        seq![b as char]
    } else {
        seq!['%', hex_digit(b as int / 16), hex_digit(b as int % 16)]
    }
}

/// Percent-encoding of a byte string, byte by byte.
pub open spec fn spec_urlencode(bs: Seq<u8>) -> Seq<char>
    decreases bs.len(),
{
    if bs.len() == 0 {
        seq![]
    } else {
        spec_urlencode(bs.drop_last()) + url_token(bs.last())
    }
}

/// Value of an upper-case hexadecimal digit (0 for any other character).
pub open spec fn hex_value(c: char) -> int {
    if '0' <= c && c <= '9' {
        c as int - '0' as int
    } else if 'A' <= c && c <= 'F' {
        c as int - 'A' as int + 10
    } else {
        0
    }
}

/// Percent-decoding: `%` and the two characters after it give the byte
/// their hex digits spell; any other character gives its code as a byte.
pub open spec fn spec_urldecode(cs: Seq<char>) -> Seq<u8>
    decreases cs.len(),
{
    if cs.len() == 0 {
        seq![]
    } else if cs[0] == '%' && cs.len() >= 3 {
        seq![(hex_value(cs[1]) * 16 + hex_value(cs[2])) as u8] + spec_urldecode(cs.skip(3))
    } else {
        seq![cs[0] as u8] + spec_urldecode(cs.skip(1))
    }
}

proof fn lemma_hex_value(d: int)
    requires
        0 <= d < 16,
    ensures
        hex_value(hex_digit(d)) == d,
{
}

proof fn lemma_decode_token(b: u8, rest: Seq<char>)
    ensures
        spec_urldecode(url_token(b) + rest) == seq![b] + spec_urldecode(rest),
{
    let t = url_token(b) + rest;
    if is_unreserved(b) {
        assert(t[0] == b as char);
        assert(t.skip(1) == rest);
        assert((b as char) as u8 == b);
    } else {
        assert(t[0] == '%');
        assert(t.skip(3) == rest);
        lemma_hex_value(b as int / 16);
        lemma_hex_value(b as int % 16);
        assert(t[1] == hex_digit(b as int / 16));
        assert(t[2] == hex_digit(b as int % 16));
        assert((b as int / 16) * 16 + b as int % 16 == b);
    }
}

proof fn lemma_decode_encoded(bs: Seq<u8>, rest: Seq<char>)
    ensures
        spec_urldecode(spec_urlencode(bs) + rest) == bs + spec_urldecode(rest),
    decreases bs.len(),
{
    if bs.len() == 0 {
        assert(spec_urlencode(bs) + rest == rest);
        assert(bs + spec_urldecode(rest) == spec_urldecode(rest));
    } else {
        let p = bs.drop_last();
        let t = url_token(bs.last());
        assert(spec_urlencode(bs) + rest == spec_urlencode(p) + (t + rest));
        lemma_decode_encoded(p, t + rest);
        lemma_decode_token(bs.last(), rest);
        assert(p + (seq![bs.last()] + spec_urldecode(rest)) == bs + spec_urldecode(rest));
    }
}

/// Percent-encoding loses nothing: decoding the encoding of any byte
/// string gives the bytes back.
pub proof fn law_urlencode_round_trip(bs: Seq<u8>)
    ensures
        spec_urldecode(spec_urlencode(bs)) == bs,
{
    lemma_decode_encoded(bs, Seq::<char>::empty());
    assert(spec_urlencode(bs) + Seq::<char>::empty() == spec_urlencode(bs));
    assert(spec_urldecode(Seq::<char>::empty()) == Seq::<u8>::empty());
    assert(bs + Seq::<u8>::empty() == bs);
}

fn hex_char(d: u8) -> (c: char)
    requires
        d < 16,
    ensures
        c == hex_digit(d as int),
{
    if d < 10 {
        (0x30u8 + d) as char
    } else {
        (0x41u8 + d - 10) as char
    }
}

/// Percent-encodes the UTF-8 bytes of `s`.
pub fn encode(s: &str) -> (r: String)
    ensures
        r@ == spec_urlencode(s.spec_bytes()),
{
    let bs = s.as_bytes();
    let mut out: Vec<char> = Vec::new();
    let mut i: usize = 0;
    while i < bs.len()
        invariant
            i <= bs@.len(),
            bs@ == s.spec_bytes(),
            out@ == spec_urlencode(bs@.take(i as int)),
        decreases bs.len() - i,
    {
        let b = bs[i];
        assert(bs@.take(i + 1).drop_last() == bs@.take(i as int));
        if (b >= 0x30 && b <= 0x39) || (b >= 0x41 && b <= 0x5a) || (b >= 0x61 && b <= 0x7a) || b
            == 0x5f || b == 0x2d || b == 0x2e || b == 0x7e {
            out.push(b as char);
        } else {
            out.push('%');
            out.push(hex_char(b / 16));
            out.push(hex_char(b % 16));
        }
        i += 1;
    }
    assert(bs@.take(bs@.len() as int) == bs@);
    string_from_chars(&out)
}

} // verus!
