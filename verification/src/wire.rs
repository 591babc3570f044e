//! Byte-level helpers shared by the frame decoder: digit strings, substring
//! search, the protocol's escape stripping, and UTF-8 conversions.

use vstd::prelude::*;
use vstd::utf8::{
    decode_utf8, encode_utf8, encode_utf8_decode_utf8, encode_utf8_valid_utf8,
    is_ascii_chars_encode_utf8, valid_utf8,
};

verus! {

/// JSON insignificant whitespace: space, tab, line feed, carriage return.
pub open spec fn is_ws(b: u8) -> bool {
    b == 32 || b == 9 || b == 10 || b == 13
}

/// An ASCII decimal digit.
pub open spec fn is_digit(b: u8) -> bool {
    48 <= b && b <= 57
}

pub open spec fn all_digits(s: Seq<u8>) -> bool {
    forall|i: int| 0 <= i < s.len() ==> is_digit(#[trigger] s[i])
}

/// The number written by a string of decimal digits, most significant first.
pub open spec fn val_of_digits(s: Seq<u8>) -> nat
    decreases s.len(),
{
    if s.len() == 0 {
        0
    } else {
        (val_of_digits(s.drop_last()) * 10 + (s.last() - 48)) as nat
    }
}

/// Reading more digits never lowers the value.
proof fn lemma_val_monotone(s: Seq<u8>, i: int)
    requires
        0 <= i <= s.len(),
        all_digits(s),
    ensures
        val_of_digits(s) >= val_of_digits(s.take(i)),
    decreases s.len() - i,
{
    if i < s.len() {
        assert(s.take(i + 1).drop_last() =~= s.take(i));
        assert(is_digit(s[i]));
        assert(val_of_digits(s.take(i + 1)) >= val_of_digits(s.take(i)));
        lemma_val_monotone(s, i + 1);
        assert(s.take(s.len() as int) =~= s);
    } else {
        assert(s.take(i) =~= s);
    }
}

/// Parses `s[from..to]` as an unsigned decimal number.
///
/// Returns the value exactly when the range is a non-empty, all-digit string
/// whose value fits in a `u64`.
pub fn parse_u64_digits(s: &[u8], from: usize, to: usize) -> (r: Option<u64>)
    requires
        from <= to <= s@.len(),
    ensures
        ({
            let d = s@.subrange(from as int, to as int);
            match r {
                Some(v) => from < to && all_digits(d) && val_of_digits(d) <= u64::MAX && v
                    == val_of_digits(d),
                None => !(from < to && all_digits(d) && val_of_digits(d) <= u64::MAX),
            }
        }),
{
    let ghost d = s@.subrange(from as int, to as int);
    if from == to {
        return None;
    }
    let mut acc: u64 = 0;
    let mut i: usize = from;
    while i < to
        invariant
            from <= i <= to <= s@.len(),
            d == s@.subrange(from as int, to as int),
            all_digits(d.take(i - from)),
            acc == val_of_digits(d.take(i - from)),
        decreases to - i,
    {
        let b = s[i];
        assert(d[i - from] == b);
        if !(48 <= b && b <= 57) {
            return None;
        }
        let dig = b - 48;
        proof {
            assert(d.take(i - from + 1).drop_last() =~= d.take(i - from));
        }
        if acc > (u64::MAX - dig as u64) / 10 {
            proof {
                assert(acc * 10 + dig > u64::MAX) by (nonlinear_arith)
                    requires
                        acc > (u64::MAX - dig as u64) / 10,
                        dig <= 9,
                ;
                assert(val_of_digits(d.take(i - from + 1)) > u64::MAX);
                if all_digits(d) {
                    lemma_val_monotone(d, i - from + 1);
                }
            }
            return None;
        }
        proof {
            assert(acc * 10 + dig <= u64::MAX) by (nonlinear_arith)
                requires
                    acc <= (u64::MAX - dig as u64) / 10,
                    dig <= 9,
            ;
        }
        acc = acc * 10 + dig as u64;
        i = i + 1;
    }
    proof {
        assert(d.take(to - from) =~= d);
    }
    Some(acc)
}

/// Where `needle` first occurs in `s` at or after position `i`.
pub open spec fn spec_find_from(s: Seq<u8>, needle: Seq<u8>, i: int) -> Option<int>
    decreases s.len() - i,
{
    if i < 0 || i + needle.len() > s.len() {
        None
    } else if needle.len() == 0 {
        Some(i)
    } else if s.subrange(i, i + needle.len()) == needle {
        Some(i)
    } else {
        spec_find_from(s, needle, i + 1)
    }
}

/// A found index is a real occurrence, and the first one at or after `i`.
pub proof fn lemma_find_from(s: Seq<u8>, needle: Seq<u8>, i: int)
    requires
        0 <= i,
    ensures
        match spec_find_from(s, needle, i) {
            Some(k) => i <= k && k + needle.len() <= s.len() && s.subrange(k, k + needle.len())
                == needle && forall|j: int|
                i <= j < k ==> #[trigger] s.subrange(j, j + needle.len()) != needle,
            None => forall|j: int|
                i <= j && j + needle.len() <= s.len() ==> #[trigger] s.subrange(j, j + needle.len()) != needle,
        },
    decreases s.len() - i,
{
    if i + needle.len() > s.len() {
    } else if needle.len() == 0 {
        assert(s.subrange(i, i + needle.len()) =~= needle);
    } else if s.subrange(i, i + needle.len()) == needle {
    } else {
        lemma_find_from(s, needle, i + 1);
    }
}

/// Whether the window of `s` at `i` equals `needle`.
fn match_at(s: &[u8], i: usize, needle: &[u8]) -> (r: bool)
    requires
        i + needle@.len() <= s@.len(),
    ensures
        r == (s@.subrange(i as int, i + needle@.len()) == needle@),
{
    let n = needle.len();
    let sl = s.len();
    let mut j: usize = 0;
    while j < n
        invariant
            i + n <= sl == s@.len(),
            n == needle@.len(),
            j <= n,
            forall|k: int| 0 <= k < j ==> s@[i + k] == needle@[k],
        decreases n - j,
    {
        if s[i + j] != needle[j] {
            assert(s@.subrange(i as int, i + needle@.len())[j as int] != needle@[j as int]);
            return false;
        }
        j = j + 1;
    }
    proof {
        assert(s@.subrange(i as int, i + needle@.len()) =~= needle@);
    }
    true
}

/// First occurrence of `needle` in `s` at or after `from`.
pub fn find_from(s: &[u8], needle: &[u8], from: usize) -> (r: Option<usize>)
    requires
        from <= s@.len(),
    ensures
        match r {
            Some(k) => Some(k as int) == spec_find_from(s@, needle@, from as int),
            None => spec_find_from(s@, needle@, from as int) is None,
        },
{
    let n = needle.len();
    let sl = s.len();
    if n > sl {
        return None;
    }
    let end = sl - n;
    let mut i: usize = from;
    if i > end {
        return None;
    }
    loop
        invariant
            from <= i <= end,
            end + n == sl == s@.len(),
            n == needle@.len(),
            spec_find_from(s@, needle@, from as int) == spec_find_from(s@, needle@, i as int),
        decreases end - i,
    {
        if match_at(s, i, needle) {
            return Some(i);
        }
        proof {
            if needle@.len() == 0 {
                assert(s@.subrange(i as int, i as int) =~= needle@);
            }
            assert(spec_find_from(s@, needle@, i as int) == spec_find_from(
                s@,
                needle@,
                i + 1,
            ));
        }
        if i == end {
            assert(spec_find_from(s@, needle@, i + 1) is None);
            return None;
        }
        i = i + 1;
    }
}

/// Whether `needle` occurs anywhere in `s`.
pub open spec fn spec_contains(s: Seq<u8>, needle: Seq<u8>) -> bool {
    spec_find_from(s, needle, 0) is Some
}

pub fn contains_sub(s: &[u8], needle: &[u8]) -> (r: bool)
    ensures
        r == spec_contains(s@, needle@),
{
    find_from(s, needle, 0).is_some()
}

/// Whether two byte strings hold the same bytes.
pub fn bytes_eq(a: &[u8], b: &[u8]) -> (r: bool)
    ensures
        r == (a@ == b@),
{
    if a.len() != b.len() {
        return false;
    }
    let n = a.len();
    let mut i: usize = 0;
    while i < n
        invariant
            n == a@.len() == b@.len(),
            i <= n,
            forall|k: int| 0 <= k < i ==> a@[k] == b@[k],
        decreases n - i,
    {
        if a[i] != b[i] {
            return false;
        }
        i = i + 1;
    }
    proof {
        assert(a@ =~= b@);
    }
    true
}

/// The protocol's unescape step: every run of three backslashes is removed,
/// scanning left to right.
pub open spec fn spec_strip(s: Seq<u8>) -> Seq<u8>
    decreases s.len(),
{
    if s.len() == 0 {
        Seq::empty()
    } else if s.len() >= 3 && s[0] == 92 && s[1] == 92 && s[2] == 92 {
        spec_strip(s.skip(3))
    } else {
        seq![s[0]] + spec_strip(s.skip(1))
    }
}

/// Removes every three-backslash escape sequence from `s[from..to]`.
pub fn strip_escapes(s: &[u8], from: usize, to: usize) -> (r: Vec<u8>)
    requires
        from <= to <= s@.len(),
    ensures
        r@ == spec_strip(s@.subrange(from as int, to as int)),
{
    let ghost d = s@.subrange(from as int, to as int);
    let mut out: Vec<u8> = Vec::new();
    let mut i: usize = from;
    proof {
        assert(d.skip(0) =~= d);
        assert(out@ + spec_strip(d) =~= spec_strip(d));
    }
    while i < to
        invariant
            from <= i <= to <= s@.len(),
            d == s@.subrange(from as int, to as int),
            out@ + spec_strip(d.skip(i - from)) == spec_strip(d),
        decreases to - i,
    {
        let ghost rest = d.skip(i - from);
        assert(rest[0] == s@[i as int]);
        if to - i >= 3 && s[i] == 92 && s[i + 1] == 92 && s[i + 2] == 92 {
            proof {
                assert(rest[1] == s@[i + 1]);
                assert(rest[2] == s@[i + 2]);
                assert(rest.skip(3) =~= d.skip(i - from + 3));
            }
            i = i + 3;
        } else {
            proof {
                if to - i >= 3 {
                    assert(rest[1] == s@[i + 1]);
                    assert(rest[2] == s@[i + 2]);
                }
                assert(rest.skip(1) =~= d.skip(i - from + 1));
            }
            out.push(s[i]);
            i = i + 1;
        }
    }
    proof {
        assert(d.skip(to - from) =~= Seq::<u8>::empty());
        assert(out@ =~= spec_strip(d));
    }
    out
}

/// Appends all of `s` to `out`.
pub fn push_bytes(out: &mut Vec<u8>, s: &[u8])
    ensures
        final(out)@ == old(out)@ + s@,
{
    let n = s.len();
    let mut i: usize = 0;
    proof {
        assert(out@ =~= old(out)@ + s@.subrange(0, 0));
    }
    while i < n
        invariant
            i <= n == s@.len(),
            out@ == old(out)@ + s@.subrange(0, i as int),
        decreases n - i,
    {
        out.push(s[i]);
        proof {
            assert(old(out)@ + s@.subrange(0, i as int) + seq![s@[i as int]] =~= old(out)@
                + s@.subrange(0, i + 1));
        }
        i = i + 1;
    }
    proof {
        assert(s@.subrange(0, n as int) =~= s@);
    }
}

/// All bytes are plain ASCII.
pub open spec fn all_ascii(s: Seq<u8>) -> bool {
    forall|i: int| 0 <= i < s.len() ==> #[trigger] s[i] < 128
}

/// ASCII bytes form valid UTF-8 and decode to themselves, one char per byte.
pub proof fn lemma_ascii_utf8(b: Seq<u8>)
    requires
        all_ascii(b),
    ensures
        valid_utf8(b),
        decode_utf8(b) == b.map_values(|x: u8| x as char),
        encode_utf8(b.map_values(|x: u8| x as char)) == b,
{
    let chars = b.map_values(|x: u8| x as char);
    assert(forall|i: int| 0 <= i < chars.len() ==> '\0' <= #[trigger] chars[i] <= '\u{7f}');
    is_ascii_chars_encode_utf8(chars);
    assert(encode_utf8(chars) =~= b);
    encode_utf8_valid_utf8(chars);
    encode_utf8_decode_utf8(chars);
}

/// Relies on `String::from_utf8`: succeeds exactly on valid UTF-8 input and
/// returns the string those bytes encode.
#[verifier::external_body]
pub fn bytes_to_string(v: &Vec<u8>) -> (r: Option<String>)
    ensures
        r is Some <==> valid_utf8(v@),
        r matches Some(s) ==> s@ == decode_utf8(v@),
{
    String::from_utf8(v.clone()).ok()
}

} // verus!
