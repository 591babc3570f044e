//! The endpoint selector: a streaming URL built from three random tokens, for
//! coarse load distribution over equivalent hosts.

use vstd::prelude::*;
use vstd::utf8::{decode_utf8_encode_utf8, encode_utf8};
use crate::wire::{all_ascii, bytes_to_string, lemma_ascii_utf8, push_bytes};

verus! {

/// Relies on `rand::random`: draws a value of the standard distribution.
/// Nothing is promised of the result.
pub assume_specification<T>[ rand::random::<T> ]() -> (r: T)
    where
        rand::distributions::Standard: rand::distributions::Distribution<T>,
;

/// One hexadecimal digit, lower case.
pub open spec fn hex_digit(v: u8) -> u8 {
    if v < 10 {
        (48 + v) as u8
    } else {
        (87 + v) as u8
    }
}

/// A host discriminator: exactly two decimal digits.
pub open spec fn dec2(d: u8) -> Seq<u8> {
    seq![(48 + d / 10) as u8, (48 + d % 10) as u8]
}

/// A path token of exactly three hexadecimal digits.
pub open spec fn hex3(t: u16) -> Seq<u8> {
    seq![
        hex_digit(((t / 0x100) % 16) as u8),
        hex_digit(((t / 0x10) % 16) as u8),
        hex_digit((t % 16) as u8),
    ]
}

/// A path token of exactly eight hexadecimal digits.
pub open spec fn hex8(t: u32) -> Seq<u8> {
    seq![
        hex_digit(((t / 0x10000000) % 16) as u8),
        hex_digit(((t / 0x1000000) % 16) as u8),
        hex_digit(((t / 0x100000) % 16) as u8),
        hex_digit(((t / 0x10000) % 16) as u8),
        hex_digit(((t / 0x1000) % 16) as u8),
        hex_digit(((t / 0x100) % 16) as u8),
        hex_digit(((t / 0x10) % 16) as u8),
        hex_digit((t % 16) as u8),
    ]
}

/// The streaming URL for host discriminator `d` and path tokens `t3`, `t8`.
pub open spec fn spec_url(d: u8, t3: u16, t8: u32) -> Seq<u8> {
    encode_utf8("wss://stream2"@) + dec2(d) + encode_utf8(".forexpros.com/echo/"@) + hex3(t3)
        + encode_utf8("/"@) + hex8(t8) + encode_utf8("/websocket"@)
}

fn hex_digit_of(v: u8) -> (r: u8)
    requires
        v < 16,
    ensures
        r == hex_digit(v),
{
    if v < 10 {
        48 + v
    } else {
        87 + v
    }
}

/// Builds the URL bytes for the given tokens.
fn render_url_bytes(d: u8, t3: u16, t8: u32) -> (r: Vec<u8>)
    requires
        d < 100,
    ensures
        r@ == spec_url(d, t3, t8),
{
    let mut out: Vec<u8> = Vec::new();
    push_bytes(&mut out, "wss://stream2".as_bytes());
    out.push(48 + d / 10);
    out.push(48 + d % 10);
    push_bytes(&mut out, ".forexpros.com/echo/".as_bytes());
    out.push(hex_digit_of(((t3 / 0x100) % 16) as u8));
    out.push(hex_digit_of(((t3 / 0x10) % 16) as u8));
    out.push(hex_digit_of((t3 % 16) as u8));
    push_bytes(&mut out, "/".as_bytes());
    out.push(hex_digit_of(((t8 / 0x10000000) % 16) as u8));
    out.push(hex_digit_of(((t8 / 0x1000000) % 16) as u8));
    out.push(hex_digit_of(((t8 / 0x100000) % 16) as u8));
    out.push(hex_digit_of(((t8 / 0x10000) % 16) as u8));
    out.push(hex_digit_of(((t8 / 0x1000) % 16) as u8));
    out.push(hex_digit_of(((t8 / 0x100) % 16) as u8));
    out.push(hex_digit_of(((t8 / 0x10) % 16) as u8));
    out.push(hex_digit_of((t8 % 16) as u8));
    push_bytes(&mut out, "/websocket".as_bytes());
    proof {
        assert(out@ =~= spec_url(d, t3, t8));
    }
    out
}

/// Every URL byte is plain ASCII.
proof fn lemma_url_ascii(d: u8, t3: u16, t8: u32)
    requires
        d < 100,
    ensures
        all_ascii(spec_url(d, t3, t8)),
{
    reveal_strlit("wss://stream2");
    reveal_strlit(".forexpros.com/echo/");
    reveal_strlit("/");
    reveal_strlit("/websocket");
    assert(vstd::utf8::is_ascii_chars("wss://stream2"@));
    assert(vstd::utf8::is_ascii_chars(".forexpros.com/echo/"@));
    assert(vstd::utf8::is_ascii_chars("/"@));
    assert(vstd::utf8::is_ascii_chars("/websocket"@));
    vstd::utf8::is_ascii_chars_encode_utf8("wss://stream2"@);
    vstd::utf8::is_ascii_chars_encode_utf8(".forexpros.com/echo/"@);
    vstd::utf8::is_ascii_chars_encode_utf8("/"@);
    vstd::utf8::is_ascii_chars_encode_utf8("/websocket"@);
    let u = spec_url(d, t3, t8);
    assert forall|i: int| 0 <= i < u.len() implies #[trigger] u[i] < 128 by {
        assert(all_ascii(encode_utf8("wss://stream2"@)));
        assert(all_ascii(encode_utf8(".forexpros.com/echo/"@)));
        assert(all_ascii(encode_utf8("/"@)));
        assert(all_ascii(encode_utf8("/websocket"@)));
    }
}

/// A fresh streaming URL: a random two-digit host discriminator below 100, a
/// random three-hex-digit token, and a random eight-hex-digit token, in the
/// fixed URL shape.
pub fn generate_stream_url() -> (r: String)
    ensures
        exists|d: u8, t3: u16, t8: u32|
            d < 100 && t3 < 0xfff && encode_utf8(r@) == #[trigger] spec_url(d, t3, t8),
{
    let x: u8 = rand::random();
    let y: u16 = rand::random();
    let z: u32 = rand::random();
    let d = x % 100;
    let t3 = y % 0xfff;
    let out = render_url_bytes(d, t3, z);
    proof {
        lemma_url_ascii(d, t3, z);
        lemma_ascii_utf8(out@);
    }
    match bytes_to_string(&out) {
        Some(s) => {
            proof {
                decode_utf8_encode_utf8(out@);
                assert(d < 100 && t3 < 0xfff && encode_utf8(s@) == spec_url(d, t3, z));
            }
            s
        },
        None => vstd::pervasive::unreached(),
    }
}

} // verus!
