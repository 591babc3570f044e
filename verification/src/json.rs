//! Parser for the flat object form the vendor uses once a snapshot frame is
//! unescaped: one brace pair holding `"key":value` members, where a value is
//! a quoted string without escapes, a JSON number, or one of the keywords
//! `true`, `false`, `null`.

use vstd::prelude::*;
use crate::wire::{bytes_eq, is_digit, is_ws};

verus! {

/// Mathematical model of one `"key":value` member.
#[verifier::ext_equal]
pub struct MemberM {
    pub key: Seq<u8>,
    pub is_string: bool,
    pub data: Seq<u8>,
}

/// One parsed `"key":value` member.
pub struct JsonMember {
    pub key: Vec<u8>,
    pub is_string: bool,
    pub data: Vec<u8>,
}

impl View for JsonMember {
    type V = MemberM;

    open spec fn view(&self) -> MemberM {
        MemberM { key: self.key@, is_string: self.is_string, data: self.data@ }
    }
}

pub open spec fn members_view(v: Seq<JsonMember>) -> Seq<MemberM> {
    v.map_values(|m: JsonMember| m@)
}

/// A character a bare numeric token may hold: digits, sign, point, exponent.
pub open spec fn is_numchar(b: u8) -> bool {
    is_digit(b) || b == 43 || b == 45 || b == 46 || b == 69 || b == 101
}

pub open spec fn all_numchars(s: Seq<u8>) -> bool {
    forall|i: int| 0 <= i < s.len() ==> is_numchar(#[trigger] s[i])
}

/// First position at or after `i` that does not hold a digit.
pub open spec fn spec_digits_end(s: Seq<u8>, i: int) -> int
    decreases s.len() - i,
{
    if 0 <= i < s.len() && is_digit(s[i]) {
        spec_digits_end(s, i + 1)
    } else {
        i
    }
}

/// Position after an optional `.digits` fraction at `i`, or -1 when a point
/// stands there without a digit behind it.
pub open spec fn spec_frac_end(s: Seq<u8>, i: int) -> int {
    if 0 <= i < s.len() && s[i] == 46 {
        if i + 1 < s.len() && is_digit(s[i + 1]) {
            spec_digits_end(s, i + 1)
        } else {
            -1
        }
    } else {
        i
    }
}

/// Position after an optional exponent at `i`, or -1 when one starts there
/// without a digit behind it.
pub open spec fn spec_exp_end(s: Seq<u8>, i: int) -> int {
    if 0 <= i < s.len() && (s[i] == 101 || s[i] == 69) {
        let j = if i + 1 < s.len() && (s[i + 1] == 43 || s[i + 1] == 45) {
            i + 2
        } else {
            i + 1
        };
        if j < s.len() && is_digit(s[j]) {
            spec_digits_end(s, j)
        } else {
            -1
        }
    } else {
        i
    }
}

/// The JSON number grammar: an optional minus, an integer part without a
/// leading zero, an optional fraction, an optional exponent.
pub open spec fn is_json_number(s: Seq<u8>) -> bool {
    let n = s.len() as int;
    let i0: int = if n > 0 && s[0] == 45 {
        1
    } else {
        0
    };
    if i0 < n && is_digit(s[i0]) {
        let i1 = if s[i0] == 48 {
            i0 + 1
        } else {
            spec_digits_end(s, i0)
        };
        let i2 = spec_frac_end(s, i1);
        0 <= i2 && spec_exp_end(s, i2) == n
    } else {
        false
    }
}

/// The three JSON keyword values.
pub open spec fn is_keyword(s: Seq<u8>) -> bool {
    s == seq![116u8, 114u8, 117u8, 101u8] || s == seq![102u8, 97u8, 108u8, 115u8, 101u8] || s
        == seq![110u8, 117u8, 108u8, 108u8]
}

/// First position at or after `i` that does not hold whitespace.
pub open spec fn spec_skip_ws(s: Seq<u8>, i: int) -> int
    decreases s.len() - i,
{
    if 0 <= i < s.len() && is_ws(s[i]) {
        spec_skip_ws(s, i + 1)
    } else {
        i
    }
}

/// Position of the quote closing a string body that starts at `i`; `None` when
/// the string is unterminated or holds a backslash or the end of input first.
pub open spec fn spec_str_end(s: Seq<u8>, i: int) -> Option<int>
    decreases s.len() - i,
{
    if i < 0 || i >= s.len() {
        None
    } else if s[i] == 34 {
        Some(i)
    } else if s[i] == 92 {
        None
    } else {
        spec_str_end(s, i + 1)
    }
}

/// A quoted string at `i`: its body and the position after the closing quote.
pub open spec fn spec_parse_string(s: Seq<u8>, i: int) -> Option<(Seq<u8>, int)> {
    if 0 <= i < s.len() && s[i] == 34 {
        match spec_str_end(s, i + 1) {
            Some(j) => Some((s.subrange(i + 1, j), j + 1)),
            None => None,
        }
    } else {
        None
    }
}

/// First position at or after `i` that ends a bare token: whitespace, a comma
/// or a closing brace.
pub open spec fn spec_tok_end(s: Seq<u8>, i: int) -> int
    decreases s.len() - i,
{
    if i < 0 || i >= s.len() {
        if i < 0 {
            i
        } else {
            s.len() as int
        }
    } else if is_ws(s[i]) || s[i] == 44 || s[i] == 125 {
        i
    } else {
        spec_tok_end(s, i + 1)
    }
}

/// A value at `i`: `(is_string, bytes, position after)`. A quoted string keeps
/// its body; a bare token must be a JSON number or one of the three keywords.
pub open spec fn spec_parse_value(s: Seq<u8>, i: int) -> Option<(bool, Seq<u8>, int)> {
    if 0 <= i < s.len() {
        if s[i] == 34 {
            match spec_parse_string(s, i) {
                Some((d, j)) => Some((true, d, j)),
                None => None,
            }
        } else {
            let e = spec_tok_end(s, i);
            if i < e && (is_json_number(s.subrange(i, e)) || is_keyword(s.subrange(i, e))) {
                Some((false, s.subrange(i, e), e))
            } else {
                None
            }
        }
    } else {
        None
    }
}

/// One `"key" : value` member at `i`.
pub open spec fn spec_parse_member(s: Seq<u8>, i: int) -> Option<(MemberM, int)> {
    match spec_parse_string(s, i) {
        Some((k, j)) => {
            let j1 = spec_skip_ws(s, j);
            if j1 < s.len() && s[j1] == 58 {
                let j2 = spec_skip_ws(s, j1 + 1);
                match spec_parse_value(s, j2) {
                    Some((st, d, j3)) => Some((MemberM { key: k, is_string: st, data: d }, j3)),
                    None => None,
                }
            } else {
                None
            }
        },
        None => None,
    }
}

/// A comma-separated run of members starting at `i` and closed by `}`;
/// returns the members and the position after the brace.
pub open spec fn spec_parse_members(s: Seq<u8>, i: int) -> Option<(Seq<MemberM>, int)>
    decreases s.len() - i,
{
    match spec_parse_member(s, i) {
        Some((m, j)) => {
            let j1 = spec_skip_ws(s, j);
            if j1 < s.len() && s[j1] == 44 {
                let j2 = spec_skip_ws(s, j1 + 1);
                if i < j2 <= s.len() {
                    match spec_parse_members(s, j2) {
                        Some((ms, k)) => Some((seq![m] + ms, k)),
                        None => None,
                    }
                } else {
                    None
                }
            } else if j1 < s.len() && s[j1] == 125 {
                Some((seq![m], j1 + 1))
            } else {
                None
            }
        },
        None => None,
    }
}

/// The whole input as one object, allowing surrounding whitespace.
pub open spec fn spec_parse_object(s: Seq<u8>) -> Option<Seq<MemberM>> {
    let i = spec_skip_ws(s, 0);
    if i < s.len() && s[i] == 123 {
        let j = spec_skip_ws(s, i + 1);
        if j < s.len() && s[j] == 125 {
            if spec_skip_ws(s, j + 1) == s.len() {
                Some(Seq::empty())
            } else {
                None
            }
        } else {
            match spec_parse_members(s, j) {
                Some((ms, k)) => if spec_skip_ws(s, k) == s.len() {
                    Some(ms)
                } else {
                    None
                },
                None => None,
            }
        }
    } else {
        None
    }
}

fn skip_ws(s: &[u8], i: usize) -> (r: usize)
    requires
        i <= s@.len(),
    ensures
        r == spec_skip_ws(s@, i as int),
        i <= r <= s@.len(),
{
    let n = s.len();
    let mut j: usize = i;
    while j < n && (s[j] == 32 || s[j] == 9 || s[j] == 10 || s[j] == 13)
        invariant
            i <= j <= n,
            n == s@.len(),
            spec_skip_ws(s@, i as int) == spec_skip_ws(s@, j as int),
        decreases n - j,
    {
        j = j + 1;
    }
    j
}

fn str_end(s: &[u8], i: usize) -> (r: Option<usize>)
    requires
        i <= s@.len(),
    ensures
        match r {
            Some(j) => Some(j as int) == spec_str_end(s@, i as int) && i <= j < s@.len()
                && s@[j as int] == 34,
            None => spec_str_end(s@, i as int) is None,
        },
{
    let n = s.len();
    let mut j: usize = i;
    while j < n
        invariant
            i <= j <= n,
            n == s@.len(),
            spec_str_end(s@, i as int) == spec_str_end(s@, j as int),
        decreases n - j,
    {
        let b = s[j];
        if b == 34 {
            return Some(j);
        }
        if b == 92 {
            return None;
        }
        j = j + 1;
    }
    None
}

fn tok_end(s: &[u8], i: usize) -> (r: usize)
    requires
        i <= s@.len(),
    ensures
        r == spec_tok_end(s@, i as int),
        i <= r <= s@.len(),
{
    let n = s.len();
    let mut j: usize = i;
    while j < n && !(s[j] == 32 || s[j] == 9 || s[j] == 10 || s[j] == 13 || s[j] == 44 || s[j]
        == 125)
        invariant
            i <= j <= n,
            n == s@.len(),
            spec_tok_end(s@, i as int) == spec_tok_end(s@, j as int),
        decreases n - j,
    {
        j = j + 1;
    }
    j
}

/// Copies `s[from..to]` out into an owned buffer.
fn copy_range(s: &[u8], from: usize, to: usize) -> (r: Vec<u8>)
    requires
        from <= to <= s@.len(),
    ensures
        r@ == s@.subrange(from as int, to as int),
{
    let mut out: Vec<u8> = Vec::new();
    let mut i: usize = from;
    while i < to
        invariant
            from <= i <= to <= s@.len(),
            out@ == s@.subrange(from as int, i as int),
        decreases to - i,
    {
        out.push(s[i]);
        proof {
            assert(out@ =~= s@.subrange(from as int, i + 1));
        }
        i = i + 1;
    }
    out
}

fn digits_end(s: &[u8], i: usize) -> (r: usize)
    requires
        i <= s@.len(),
    ensures
        r as int == spec_digits_end(s@, i as int),
        i <= r <= s@.len(),
{
    let n = s.len();
    let mut j: usize = i;
    while j < n && 48 <= s[j] && s[j] <= 57
        invariant
            i <= j <= n,
            n == s@.len(),
            spec_digits_end(s@, i as int) == spec_digits_end(s@, j as int),
        decreases n - j,
    {
        j = j + 1;
    }
    j
}

/// Whether a whole buffer is a JSON number.
pub(crate) fn json_number_check(d: &[u8]) -> (r: bool)
    ensures
        r == is_json_number(d@),
{
    let n = d.len();
    if n == 0 {
        return false;
    }
    let i0: usize = if d[0] == 45 {
        1
    } else {
        0
    };
    if i0 >= n {
        return false;
    }
    let b0 = d[i0];
    if !(48 <= b0 && b0 <= 57) {
        return false;
    }
    let i1: usize = if b0 == 48 {
        i0 + 1
    } else {
        digits_end(d, i0)
    };
    let i2: usize;
    if i1 < n && d[i1] == 46 {
        if i1 + 1 < n && 48 <= d[i1 + 1] && d[i1 + 1] <= 57 {
            i2 = digits_end(d, i1 + 1);
        } else {
            assert(spec_frac_end(d@, i1 as int) == -1);
            return false;
        }
    } else {
        i2 = i1;
    }
    assert(i2 as int == spec_frac_end(d@, i1 as int));
    if i2 < n && (d[i2] == 101 || d[i2] == 69) {
        let j: usize = if i2 + 1 < n && (d[i2 + 1] == 43 || d[i2 + 1] == 45) {
            i2 + 2
        } else {
            i2 + 1
        };
        if j < n && 48 <= d[j] && d[j] <= 57 {
            let e = digits_end(d, j);
            assert(e as int == spec_exp_end(d@, i2 as int));
            e == n
        } else {
            assert(spec_exp_end(d@, i2 as int) == -1);
            false
        }
    } else {
        i2 == n
    }
}

/// Whether a whole buffer is one of the three JSON keywords.
fn keyword_check(d: &[u8]) -> (r: bool)
    ensures
        r == is_keyword(d@),
{
    let mut t: Vec<u8> = Vec::new();
    t.push(116);
    t.push(114);
    t.push(117);
    t.push(101);
    let mut f: Vec<u8> = Vec::new();
    f.push(102);
    f.push(97);
    f.push(108);
    f.push(115);
    f.push(101);
    let mut nl: Vec<u8> = Vec::new();
    nl.push(110);
    nl.push(117);
    nl.push(108);
    nl.push(108);
    proof {
        assert(t@ =~= seq![116u8, 114u8, 117u8, 101u8]);
        assert(f@ =~= seq![102u8, 97u8, 108u8, 115u8, 101u8]);
        assert(nl@ =~= seq![110u8, 117u8, 108u8, 108u8]);
    }
    bytes_eq(d, t.as_slice()) || bytes_eq(d, f.as_slice()) || bytes_eq(d, nl.as_slice())
}

fn parse_string(s: &[u8], i: usize) -> (r: Option<(Vec<u8>, usize)>)
    requires
        i <= s@.len(),
    ensures
        match r {
            Some((d, j)) => Some((d@, j as int)) == spec_parse_string(s@, i as int) && j <= s@.len(),
            None => spec_parse_string(s@, i as int) is None,
        },
{
    if i < s.len() && s[i] == 34 {
        match str_end(s, i + 1) {
            Some(j) => {
                let d = copy_range(s, i + 1, j);
                Some((d, j + 1))
            },
            None => None,
        }
    } else {
        None
    }
}

fn parse_value(s: &[u8], i: usize) -> (r: Option<(bool, Vec<u8>, usize)>)
    requires
        i <= s@.len(),
    ensures
        match r {
            Some((st, d, j)) => Some((st, d@, j as int)) == spec_parse_value(s@, i as int) && j
                <= s@.len(),
            None => spec_parse_value(s@, i as int) is None,
        },
{
    if i < s.len() {
        if s[i] == 34 {
            match parse_string(s, i) {
                Some((d, j)) => Some((true, d, j)),
                None => None,
            }
        } else {
            let e = tok_end(s, i);
            if i < e {
                let d = copy_range(s, i, e);
                if json_number_check(d.as_slice()) || keyword_check(d.as_slice()) {
                    Some((false, d, e))
                } else {
                    None
                }
            } else {
                None
            }
        }
    } else {
        None
    }
}

fn parse_member(s: &[u8], i: usize) -> (r: Option<(JsonMember, usize)>)
    requires
        i <= s@.len(),
    ensures
        match r {
            Some((m, j)) => Some((m@, j as int)) == spec_parse_member(s@, i as int) && j <= s@.len(),
            None => spec_parse_member(s@, i as int) is None,
        },
{
    match parse_string(s, i) {
        Some((k, j)) => {
            let j1 = skip_ws(s, j);
            if j1 < s.len() && s[j1] == 58 {
                let j2 = skip_ws(s, j1 + 1);
                match parse_value(s, j2) {
                    Some((st, d, j3)) => Some((JsonMember { key: k, is_string: st, data: d }, j3)),
                    None => None,
                }
            } else {
                None
            }
        },
        None => None,
    }
}

fn parse_members(s: &[u8], i: usize) -> (r: Option<(Vec<JsonMember>, usize)>)
    requires
        i <= s@.len(),
    ensures
        match r {
            Some((ms, k)) => Some((members_view(ms@), k as int)) == spec_parse_members(
                s@,
                i as int,
            ) && k <= s@.len(),
            None => spec_parse_members(s@, i as int) is None,
        },
{
    let mut out: Vec<JsonMember> = Vec::new();
    let mut cur: usize = i;
    proof {
        assert(members_view(out@) =~= Seq::<MemberM>::empty());
    }
    loop
        invariant
            i <= cur <= s@.len(),
            ({
                match spec_parse_members(s@, cur as int) {
                    Some((ms, k)) => spec_parse_members(s@, i as int) == Some(
                        (members_view(out@) + ms, k),
                    ),
                    None => spec_parse_members(s@, i as int) is None,
                }
            }),
        decreases s@.len() - cur,
    {
        match parse_member(s, cur) {
            Some((m, j)) => {
                let j1 = skip_ws(s, j);
                if j1 < s.len() && s[j1] == 44 {
                    let j2 = skip_ws(s, j1 + 1);
                    if cur < j2 && j2 <= s.len() {
                        let ghost old_out = out@;
                        out.push(m);
                        proof {
                            assert(members_view(out@) =~= members_view(old_out) + seq![m@]);
                            assert forall|ms: Seq<MemberM>|
                                true implies (members_view(old_out) + (seq![m@] + ms)) =~= (
                            members_view(old_out) + seq![m@]) + ms by {}
                        }
                        cur = j2;
                    } else {
                        return None;
                    }
                } else if j1 < s.len() && s[j1] == 125 {
                    let ghost old_out = out@;
                    out.push(m);
                    proof {
                        assert(members_view(out@) =~= members_view(old_out) + seq![m@]);
                    }
                    return Some((out, j1 + 1));
                } else {
                    return None;
                }
            },
            None => {
                return None;
            },
        }
    }
}

/// Parses the whole input as one flat object, allowing surrounding whitespace.
pub fn parse_object(s: &[u8]) -> (r: Option<Vec<JsonMember>>)
    ensures
        match r {
            Some(ms) => Some(members_view(ms@)) == spec_parse_object(s@),
            None => spec_parse_object(s@) is None,
        },
{
    let i = skip_ws(s, 0);
    if i < s.len() && s[i] == 123 {
        let j = skip_ws(s, i + 1);
        if j < s.len() && s[j] == 125 {
            if skip_ws(s, j + 1) == s.len() {
                let out: Vec<JsonMember> = Vec::new();
                proof {
                    assert(members_view(out@) =~= Seq::<MemberM>::empty());
                }
                Some(out)
            } else {
                None
            }
        } else {
            match parse_members(s, j) {
                Some((ms, k)) => {
                    if skip_ws(s, k) == s.len() {
                        Some(ms)
                    } else {
                        None
                    }
                },
                None => None,
            }
        }
    } else {
        None
    }
}

} // verus!
