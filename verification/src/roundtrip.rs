//! The decoder's round-trip law: a well-formed snapshot, written out in the
//! wire envelope shape, decodes back to itself.

use vstd::prelude::*;
use crate::json::{
    all_numchars, is_json_number, is_numchar, spec_digits_end, spec_exp_end, spec_frac_end,
    spec_parse_member, spec_parse_members, spec_parse_object, spec_parse_string, spec_parse_value,
    spec_skip_ws, spec_str_end, spec_tok_end, MemberM,
};
use crate::snapshot::{
    empty_partial, k_ask, k_bid, k_high, k_last, k_last_close, k_last_dir, k_last_numeric, k_pc,
    k_low, k_pc_col, k_pcp, k_pid, k_time, k_timestamp, k_turnover, k_turnover_numeric, spec_fold,
    spec_set_member, spec_snapshot_of, DecodeError, PartialM, SnapshotM,
};
use crate::decode::{delim, rbrace, spec_decode};
use crate::snapshot::spec_snapshot_json;
use crate::wire::{
    all_ascii, all_digits, is_digit, lemma_ascii_utf8, lemma_find_from, spec_find_from,
    spec_strip, val_of_digits,
};
use vstd::utf8::{encode_utf8_valid_utf8, is_ascii_chars, is_ascii_chars_encode_utf8, valid_utf8};

verus! {

/// The decimal digits of `n`, most significant first, without leading zeros.
pub open spec fn dec_digits(n: nat) -> Seq<u8>
    decreases n,
{
    if n < 10 {
        seq![(48 + n) as u8]
    } else {
        dec_digits(n / 10) + seq![(48 + n % 10) as u8]
    }
}

/// Scanning an all-digit tail reaches the end.
proof fn lemma_digits_end_all(s: Seq<u8>, i: int)
    requires
        0 <= i <= s.len(),
        forall|k: int| i <= k < s.len() ==> is_digit(#[trigger] s[k]),
    ensures
        spec_digits_end(s, i) == s.len(),
    decreases s.len() - i,
{
    if i < s.len() {
        lemma_digits_end_all(s, i + 1);
    }
}

/// The canonical digits of `n` read back as `n`, and as a JSON number.
pub proof fn lemma_dec_digits(n: nat)
    ensures
        all_digits(dec_digits(n)),
        dec_digits(n).len() > 0,
        val_of_digits(dec_digits(n)) == n,
        n >= 10 ==> dec_digits(n)[0] != 48,
        is_json_number(dec_digits(n)),
    decreases n,
{
    if n < 10 {
        let s = dec_digits(n);
        assert(s =~= seq![(48 + n) as u8]);
        assert(s.drop_last() =~= Seq::<u8>::empty());
        assert(val_of_digits(Seq::<u8>::empty()) == 0);
        assert(s.last() == (48 + n) as u8);
        assert(val_of_digits(s) == val_of_digits(s.drop_last()) * 10 + (s.last() - 48));
        assert(val_of_digits(s) == n);
        assert(is_json_number(s)) by {
            if s[0] != 48 {
                lemma_digits_end_all(s, 0);
            }
            assert(spec_frac_end(s, 1) == 1);
            assert(spec_exp_end(s, 1) == 1);
        }
    } else {
        lemma_dec_digits(n / 10);
        let a = dec_digits(n / 10);
        let d = (48 + n % 10) as u8;
        let s = dec_digits(n);
        assert(s == a + seq![d]);
        assert(s.drop_last() =~= a);
        assert(s.last() == d);
        assert(val_of_digits(s) == val_of_digits(a) * 10 + (n % 10));
        assert(val_of_digits(a) * 10 + n % 10 == n);
        assert(forall|i: int|
            0 <= i < s.len() ==> is_digit(#[trigger] s[i]) || i == s.len() - 1);
        assert(is_digit(d));
        assert(s[0] == a[0]);
        assert(s[0] != 48) by {
            if n / 10 < 10 {
                assert(a[0] == (48 + n / 10) as u8);
                assert(n / 10 >= 1);
            }
        }
        assert(is_json_number(s)) by {
            let nl = s.len() as int;
            assert(is_digit(s[0]));
            lemma_digits_end_all(s, 0);
            assert(spec_frac_end(s, nl) == nl);
            assert(spec_exp_end(s, nl) == nl);
        }
    }
}

/// A byte allowed in a rendered text field: anything but a quote, a backslash
/// or a closing brace — those three the protocol itself cannot carry (a quote
/// or backslash breaks the escaped string, a closing brace ends the envelope).
pub open spec fn wf_text_byte(b: u8) -> bool {
    b != 34 && b != 92 && b != 125
}

/// Renderable field text: valid UTF-8 without the three reserved bytes.
pub open spec fn wf_text(s: Seq<u8>) -> bool {
    valid_utf8(s) && forall|i: int| 0 <= i < s.len() ==> wf_text_byte(#[trigger] s[i])
}

/// A renderable numeric token: a JSON number.
pub open spec fn wf_num(s: Seq<u8>) -> bool {
    s.len() > 0 && all_numchars(s) && is_json_number(s)
}

/// A renderable member.
pub open spec fn wf_member(m: MemberM) -> bool {
    wf_text(m.key) && if m.is_string {
        wf_text(m.data)
    } else {
        wf_num(m.data)
    }
}

/// A value as it stands in the unescaped object text.
pub open spec fn render_val(is_string: bool, d: Seq<u8>) -> Seq<u8> {
    if is_string {
        seq![34u8] + d + seq![34u8]
    } else {
        d
    }
}

/// One member as it stands in the unescaped object text.
pub open spec fn render_member(m: MemberM) -> Seq<u8> {
    seq![34u8] + m.key + seq![34u8, 58u8] + render_val(m.is_string, m.data)
}

/// A comma-separated member list.
pub open spec fn render_members(ms: Seq<MemberM>) -> Seq<u8>
    decreases ms.len(),
{
    if ms.len() == 0 {
        Seq::empty()
    } else if ms.len() == 1 {
        render_member(ms[0])
    } else {
        render_member(ms[0]) + seq![44u8] + render_members(ms.skip(1))
    }
}

/// The whole unescaped object text.
pub open spec fn render_object(ms: Seq<MemberM>) -> Seq<u8> {
    seq![123u8] + render_members(ms) + seq![125u8]
}

/// Scanning a string body without quotes or backslashes stops at the closing
/// quote.
proof fn lemma_str_end_at(s: Seq<u8>, i: int, j: int)
    requires
        0 <= i <= j < s.len(),
        forall|k: int| i <= k < j ==> #[trigger] s[k] != 34 && s[k] != 92,
        s[j] == 34,
    ensures
        spec_str_end(s, i) == Some(j),
    decreases j - i,
{
    if i < j {
        lemma_str_end_at(s, i + 1, j);
    }
}

/// Scanning a bare token of numeric characters stops at the delimiter.
proof fn lemma_tok_end_at(s: Seq<u8>, i: int, j: int)
    requires
        0 <= i <= j <= s.len(),
        forall|k: int| i <= k < j ==> is_numchar(#[trigger] s[k]),
        j < s.len() ==> (s[j] == 44 || s[j] == 125),
    ensures
        spec_tok_end(s, i) == j,
    decreases j - i,
{
    if i < j {
        lemma_tok_end_at(s, i + 1, j);
    }
}

/// A rendered member followed by a comma or closing brace parses to itself.
#[verifier::rlimit(100)]
#[verifier::spinoff_prover]
proof fn lemma_parse_member_at(s: Seq<u8>, i: int, m: MemberM)
    requires
        wf_member(m),
        0 <= i,
        i + render_member(m).len() < s.len(),
        s.subrange(i, i + render_member(m).len() as int) == render_member(m),
        s[i + render_member(m).len()] == 44 || s[i + render_member(m).len()] == 125,
    ensures
        spec_parse_member(s, i) == Some((m, i + render_member(m).len() as int)),
{
    let rm = render_member(m);
    let nl = rm.len() as int;
    let nk = m.key.len() as int;
    let a1 = seq![34u8] + m.key;
    let a2 = a1 + seq![34u8, 58u8];
    let rv = render_val(m.is_string, m.data);
    assert(rm == a2 + rv);
    assert(forall|t: int| 0 <= t < a2.len() ==> #[trigger] rm[t] == a2[t]);
    assert(forall|t: int| 0 <= t < rv.len() ==> #[trigger] rv[t] == rm[a2.len() + t]);
    assert(forall|t: int| 0 <= t < a1.len() ==> #[trigger] a2[t] == a1[t]);
    assert(forall|t: int| 0 <= t < nk ==> #[trigger] m.key[t] == a1[1 + t]);
    assert(a1[0] == 34);
    assert(a2[1 + nk] == 34);
    assert(a2[2 + nk] == 58);
    assert(forall|t: int| 0 <= t < nl ==> s[i + t] == #[trigger] rm[t]) by {
        assert(forall|t: int|
            0 <= t < nl ==> s.subrange(i, i + nl)[t] == #[trigger] rm[t]);
    }
    assert(s[i] == 34) by {
        assert(s[i + 0] == rm[0]);
        assert(rm[0] == a2[0] && a2[0] == a1[0]);
    }
    assert(forall|k: int| i + 1 <= k < i + 1 + nk ==> #[trigger] s[k] != 34 && s[k] != 92) by {
        assert(forall|k: int|
            i + 1 <= k < i + 1 + nk ==> #[trigger] s[k] == rm[k - i] && rm[k - i] == m.key[k - i
                - 1]);
    }
    assert(s[i + 1 + nk] == 34) by {
        assert(s[i + (1 + nk)] == rm[1 + nk]);
        assert(rm[1 + nk] == a2[1 + nk]);
    }
    lemma_str_end_at(s, i + 1, i + 1 + nk);
    assert(spec_parse_string(s, i) == Some((s.subrange(i + 1, i + 1 + nk), i + 2 + nk)));
    assert forall|t: int| 0 <= t < nk implies s.subrange(i + 1, i + 1 + nk)[t] == m.key[t] by {
        assert(s[i + (1 + t)] == rm[1 + t]);
        assert(rm[1 + t] == a2[1 + t]);
        assert(a2[1 + t] == a1[1 + t]);
        assert(a1[1 + t] == m.key[t]);
    }
    assert(s.subrange(i + 1, i + 1 + nk) =~= m.key);
    let j = i + 2 + nk;
    assert(s[j] == rm[2 + nk]);
    assert(rm[2 + nk] == 58);
    assert(spec_skip_ws(s, j) == j);
    let j2 = j + 1;
    assert(spec_skip_ws(s, j2) == j2) by {
        assert(s[i + (3 + nk)] == rm[3 + nk]);
        assert(rv[0] == rm[a2.len() as int]);
        if m.is_string {
            assert(rv[0] == (seq![34u8] + m.data)[0]);
        } else {
            assert(rv[0] == m.data[0]);
            assert(is_numchar(m.data[0]));
        }
    }
    if m.is_string {
        let nd = m.data.len() as int;
        let b1 = seq![34u8] + m.data;
        assert(rv == b1 + seq![34u8]);
        assert(forall|t: int| 0 <= t < b1.len() ==> #[trigger] rv[t] == b1[t]);
        assert(forall|t: int| 0 <= t < nd ==> #[trigger] m.data[t] == b1[1 + t]);
        assert(b1[0] == 34);
        assert(rv[1 + nd] == 34);
        assert(s[j2] == rm[3 + nk]);
        assert(rm[3 + nk] == rv[0]);
        assert(rv[0] == 34);
        assert(forall|k: int|
            j2 + 1 <= k < j2 + 1 + nd ==> #[trigger] s[k] == rm[k - i] && rm[k - i] == rv[k - j2]
                && rv[k - j2] == m.data[k - j2 - 1]);
        assert(forall|k: int| j2 + 1 <= k < j2 + 1 + nd ==> #[trigger] s[k] != 34 && s[k] != 92);
        assert(s[j2 + 1 + nd] == rm[4 + nk + nd]);
        assert(rm[4 + nk + nd] == rv[1 + nd]);
        lemma_str_end_at(s, j2 + 1, j2 + 1 + nd);
        assert(spec_parse_string(s, j2) == Some((s.subrange(j2 + 1, j2 + 1 + nd), j2 + 2 + nd)));
        assert(s.subrange(j2 + 1, j2 + 1 + nd) =~= m.data);
        assert(spec_parse_value(s, j2) == Some((true, m.data, i + nl)));
    } else {
        let nd = m.data.len() as int;
        assert(rv == m.data);
        assert(s[j2] == rm[3 + nk]);
        assert(rm[3 + nk] == rv[0]);
        assert(rv[0] == m.data[0]);
        assert(is_numchar(m.data[0]));
        assert(s[j2] != 34);
        assert(forall|k: int|
            j2 <= k < j2 + nd ==> #[trigger] s[k] == rm[k - i] && rm[k - i] == m.data[k - j2]);
        assert(forall|k: int| j2 <= k < j2 + nd ==> is_numchar(#[trigger] s[k]));
        lemma_tok_end_at(s, j2, j2 + nd);
        assert(s.subrange(j2, j2 + nd) =~= m.data);
        assert(spec_parse_value(s, j2) == Some((false, m.data, i + nl)));
    }
    assert(spec_parse_member(s, i) == Some(
        (MemberM { key: s.subrange(i + 1, i + 1 + nk), is_string: m.is_string, data: m.data }, i
            + nl),
    ));
    assert(MemberM { key: s.subrange(i + 1, i + 1 + nk), is_string: m.is_string, data: m.data }
        =~= m);
}

/// A rendered member list closed by `}` parses to itself.
#[verifier::rlimit(100)]
#[verifier::spinoff_prover]
proof fn lemma_parse_members_at(s: Seq<u8>, i: int, ms: Seq<MemberM>)
    requires
        ms.len() >= 1,
        forall|k: int| 0 <= k < ms.len() ==> wf_member(#[trigger] ms[k]),
        0 <= i,
        i + render_members(ms).len() + 1 <= s.len(),
        s.subrange(i, i + render_members(ms).len() + 1) == render_members(ms) + seq![125u8],
    ensures
        spec_parse_members(s, i) == Some((ms, i + render_members(ms).len() + 1)),
    decreases ms.len(),
{
    let rms = render_members(ms);
    let nl = rms.len() as int;
    let sub = rms + seq![125u8];
    assert(forall|t: int| 0 <= t < nl + 1 ==> s[i + t] == #[trigger] sub[t]) by {
        assert(forall|t: int|
            0 <= t < nl + 1 ==> s.subrange(i, i + nl + 1)[t] == #[trigger] sub[t]);
    }
    let rm0 = render_member(ms[0]);
    let n0 = rm0.len() as int;
    if ms.len() == 1 {
        assert(rms == rm0);
        assert forall|t: int| 0 <= t < n0 implies s.subrange(i, i + n0)[t] == rm0[t] by {
            assert(s[i + t] == sub[t]);
            assert(sub[t] == rms[t]);
        }
        assert(s.subrange(i, i + n0) =~= rm0);
        assert(s[i + n0] == sub[nl]);
        assert(sub[nl] == 125);
        lemma_parse_member_at(s, i, ms[0]);
        let j = i + n0;
        assert(spec_skip_ws(s, j) == j);
        assert(seq![ms[0]] =~= ms);
        assert(spec_parse_members(s, i) == Some((seq![ms[0]], j + 1)));
    } else {
        let rest = ms.skip(1);
        let rrest = render_members(rest);
        let nr = rrest.len() as int;
        assert(rms == render_member(ms[0]) + seq![44u8] + rrest);
        let c1 = rm0 + seq![44u8];
        assert(rms == c1 + rrest);
        assert(forall|t: int| 0 <= t < c1.len() ==> #[trigger] rms[t] == c1[t]);
        assert(forall|u: int| 0 <= u < nr ==> #[trigger] rrest[u] == rms[n0 + 1 + u]);
        assert(forall|t: int| 0 <= t < n0 ==> #[trigger] c1[t] == rm0[t]);
        assert(c1[n0] == 44);
        assert forall|t: int| 0 <= t < n0 implies s.subrange(i, i + n0)[t] == rm0[t] by {
            assert(s[i + t] == sub[t]);
            assert(sub[t] == rms[t]);
            assert(rms[t] == c1[t]);
        }
        assert(s.subrange(i, i + n0) =~= rm0);
        assert(s[i + n0] == sub[n0]);
        assert(sub[n0] == rms[n0]);
        assert(rms[n0] == c1[n0]);
        lemma_parse_member_at(s, i, ms[0]);
        let j = i + n0;
        assert(s[j] == 44);
        assert(spec_skip_ws(s, j) == j);
        let j2 = j + 1;
        assert(rest.len() >= 1);
        let m1 = rest[0];
        let rm1 = render_member(m1);
        assert(rm1[0] == 34) by {
            let b1 = seq![34u8] + m1.key;
            let b2 = b1 + seq![34u8, 58u8];
            assert(rm1 == b2 + render_val(m1.is_string, m1.data));
            assert(rm1[0] == b2[0]);
            assert(b2[0] == b1[0]);
        }
        assert(rrest[0] == rm1[0]) by {
            if rest.len() == 1 {
                assert(rrest == rm1);
            } else {
                let d1 = rm1 + seq![44u8];
                assert(rrest == d1 + render_members(rest.skip(1)));
                assert(rrest[0] == d1[0]);
                assert(d1[0] == rm1[0]);
            }
        }
        assert(s[j2] == sub[n0 + 1]);
        assert(sub[n0 + 1] == rms[n0 + 1]);
        assert(rms[n0 + 1] == rrest[0]);
        assert(spec_skip_ws(s, j2) == j2);
        assert forall|t: int| 0 <= t < nr + 1 implies s.subrange(j2, j2 + nr + 1)[t] == (rrest
            + seq![125u8])[t] by {
            if t < nr {
                assert(s[i + (n0 + 1 + t)] == sub[n0 + 1 + t]);
                assert(sub[n0 + 1 + t] == rms[n0 + 1 + t]);
                assert(rms[n0 + 1 + t] == rrest[t]);
            } else {
                assert(s[i + nl] == sub[nl]);
                assert(sub[nl] == 125);
            }
        }
        assert(s.subrange(j2, j2 + nr + 1) =~= rrest + seq![125u8]);
        assert(forall|k: int| 0 <= k < rest.len() ==> wf_member(#[trigger] rest[k])) by {
            assert(forall|k: int| 0 <= k < rest.len() ==> rest[k] == ms[k + 1]);
        }
        lemma_parse_members_at(s, j2, rest);
        assert(spec_parse_members(s, j2) == Some((rest, j2 + nr + 1)));
        assert(i < j2 <= s.len());
        assert(seq![ms[0]] + rest =~= ms);
        assert(j2 + nr + 1 == i + nl + 1);
        assert(spec_parse_members(s, i) == Some((seq![ms[0]] + rest, j2 + nr + 1)));
    }
}

/// The rendered object text parses to exactly its member list.
#[verifier::rlimit(100)]
#[verifier::spinoff_prover]
pub proof fn lemma_parse_object_render(ms: Seq<MemberM>)
    requires
        ms.len() >= 1,
        forall|k: int| 0 <= k < ms.len() ==> wf_member(#[trigger] ms[k]),
    ensures
        spec_parse_object(render_object(ms)) == Some(ms),
{
    let s = render_object(ms);
    let rms = render_members(ms);
    let nl = rms.len() as int;
    let c1 = seq![123u8] + rms;
    assert(s == c1 + seq![125u8]);
    assert(forall|t: int| 0 <= t < c1.len() ==> #[trigger] s[t] == c1[t]);
    assert(forall|t: int| 0 <= t < nl ==> #[trigger] rms[t] == c1[1 + t]);
    assert(s[0] == 123) by {
        assert(s[0] == c1[0]);
    }
    assert(spec_skip_ws(s, 0) == 0);
    let m0 = ms[0];
    let rm0 = render_member(m0);
    assert(rm0[0] == 34) by {
        let b1 = seq![34u8] + m0.key;
        let b2 = b1 + seq![34u8, 58u8];
        assert(rm0 == b2 + render_val(m0.is_string, m0.data));
        assert(rm0[0] == b2[0]);
        assert(b2[0] == b1[0]);
    }
    assert(rms[0] == rm0[0]) by {
        if ms.len() == 1 {
            assert(rms == rm0);
        } else {
            let d1 = rm0 + seq![44u8];
            assert(rms == d1 + render_members(ms.skip(1)));
            assert(rms[0] == d1[0]);
            assert(d1[0] == rm0[0]);
        }
    }
    assert(nl >= 1);
    assert(s[1] == 34) by {
        assert(s[1] == c1[1]);
        assert(c1[1] == rms[0]);
    }
    assert(spec_skip_ws(s, 1) == 1);
    assert forall|t: int| 0 <= t < nl + 1 implies s.subrange(1, 1 + nl + 1)[t] == (rms
        + seq![125u8])[t] by {
        if t < nl {
            assert(s[1 + t] == c1[1 + t]);
            assert(c1[1 + t] == rms[t]);
        } else {
            assert(s[1 + nl] == 125);
        }
    }
    assert(s.subrange(1, 1 + nl + 1) =~= rms + seq![125u8]);
    lemma_parse_members_at(s, 1, ms);
    assert(spec_parse_members(s, 1) == Some((ms, s.len() as int)));
    assert(spec_skip_ws(s, s.len() as int) == s.len());
}


/// The three-backslash escape before a quote, as the wire carries it.
pub open spec fn esc_quote() -> Seq<u8> {
    seq![92u8, 92u8, 92u8, 34u8]
}

/// A value as it stands inside the escaped envelope.
pub open spec fn esc_val(is_string: bool, d: Seq<u8>) -> Seq<u8> {
    if is_string {
        esc_quote() + d + esc_quote()
    } else {
        d
    }
}

/// One member as it stands inside the escaped envelope.
pub open spec fn esc_member(m: MemberM) -> Seq<u8> {
    esc_quote() + m.key + esc_quote() + seq![58u8] + esc_val(m.is_string, m.data)
}

/// A comma-separated escaped member list.
pub open spec fn esc_members(ms: Seq<MemberM>) -> Seq<u8>
    decreases ms.len(),
{
    if ms.len() == 0 {
        Seq::empty()
    } else if ms.len() == 1 {
        esc_member(ms[0])
    } else {
        esc_member(ms[0]) + seq![44u8] + esc_members(ms.skip(1))
    }
}

/// Stripping walks over a backslash-free prefix unchanged.
proof fn lemma_strip_no_bs(a: Seq<u8>, b: Seq<u8>)
    requires
        forall|i: int| 0 <= i < a.len() ==> #[trigger] a[i] != 92,
    ensures
        spec_strip(a + b) == a + spec_strip(b),
    decreases a.len(),
{
    if a.len() == 0 {
        assert(a + b =~= b);
        assert(a + spec_strip(b) =~= spec_strip(b));
    } else {
        let s = a + b;
        assert(s[0] == a[0]);
        assert(s.skip(1) =~= a.skip(1) + b);
        lemma_strip_no_bs(a.skip(1), b);
        assert(seq![s[0]] + (a.skip(1) + spec_strip(b)) =~= a + spec_strip(b));
    }
}

/// Stripping turns the escaped quote into a bare quote.
proof fn lemma_strip_esc_quote(b: Seq<u8>)
    ensures
        spec_strip(esc_quote() + b) == seq![34u8] + spec_strip(b),
{
    let s = esc_quote() + b;
    assert(s[0] == 92 && s[1] == 92 && s[2] == 92);
    assert(s.len() >= 3);
    assert(s.skip(3) =~= seq![34u8] + b);
    let t = seq![34u8] + b;
    assert(t[0] == 34);
    assert(t.skip(1) =~= b);
    assert(spec_strip(t) == seq![34u8] + spec_strip(b));
}

/// Stripping one escaped member, with whatever follows it.
proof fn lemma_strip_member(m: MemberM, rest: Seq<u8>)
    requires
        wf_member(m),
    ensures
        spec_strip(esc_member(m) + rest) == render_member(m) + spec_strip(rest),
{
    let em = esc_member(m);
    if m.is_string {
        let tail3 = esc_quote() + rest;
        let tail2b = m.data + tail3;
        let tail2 = esc_quote() + tail2b;
        let tail1b = seq![58u8] + tail2;
        let tail1 = esc_quote() + tail1b;
        let tail0b = m.key + tail1;
        let whole = esc_quote() + tail0b;
        assert(em + rest =~= whole);
        lemma_strip_esc_quote(tail0b);
        lemma_strip_no_bs(m.key, tail1);
        lemma_strip_esc_quote(tail1b);
        assert(forall|i: int| 0 <= i < seq![58u8].len() ==> #[trigger] seq![58u8][i] != 92);
        lemma_strip_no_bs(seq![58u8], tail2);
        lemma_strip_esc_quote(tail2b);
        lemma_strip_no_bs(m.data, tail3);
        lemma_strip_esc_quote(rest);
        assert(spec_strip(whole) =~= render_member(m) + spec_strip(rest));
    } else {
        let tail2 = m.data + rest;
        let tail1b = seq![58u8] + tail2;
        let tail1 = esc_quote() + tail1b;
        let tail0b = m.key + tail1;
        let whole = esc_quote() + tail0b;
        assert(em + rest =~= whole);
        lemma_strip_esc_quote(tail0b);
        lemma_strip_no_bs(m.key, tail1);
        lemma_strip_esc_quote(tail1b);
        assert(forall|i: int| 0 <= i < seq![58u8].len() ==> #[trigger] seq![58u8][i] != 92);
        lemma_strip_no_bs(seq![58u8], tail2);
        assert(forall|i: int| 0 <= i < m.data.len() ==> #[trigger] m.data[i] != 92) by {
            assert(forall|i: int| 0 <= i < m.data.len() ==> is_numchar(#[trigger] m.data[i]));
        }
        lemma_strip_no_bs(m.data, rest);
        assert(spec_strip(whole) =~= render_member(m) + spec_strip(rest));
    }
}

/// Stripping the escaped member list, with whatever follows it.
proof fn lemma_strip_members(ms: Seq<MemberM>, rest: Seq<u8>)
    requires
        forall|k: int| 0 <= k < ms.len() ==> wf_member(#[trigger] ms[k]),
    ensures
        spec_strip(esc_members(ms) + rest) == render_members(ms) + spec_strip(rest),
    decreases ms.len(),
{
    if ms.len() == 0 {
        assert(esc_members(ms) + rest =~= rest);
        assert(render_members(ms) + spec_strip(rest) =~= spec_strip(rest));
    } else if ms.len() == 1 {
        lemma_strip_member(ms[0], rest);
        assert(esc_members(ms) + rest =~= esc_member(ms[0]) + rest);
    } else {
        let tailb = esc_members(ms.skip(1)) + rest;
        let taila = seq![44u8] + tailb;
        assert(esc_members(ms) + rest =~= esc_member(ms[0]) + taila);
        lemma_strip_member(ms[0], taila);
        assert(forall|i: int| 0 <= i < seq![44u8].len() ==> #[trigger] seq![44u8][i] != 92);
        lemma_strip_no_bs(seq![44u8], tailb);
        assert(forall|k: int| 0 <= k < ms.skip(1).len() ==> wf_member(#[trigger] ms.skip(1)[k]))
            by {
            assert(forall|k: int| 0 <= k < ms.skip(1).len() ==> ms.skip(1)[k] == ms[k + 1]);
        }
        lemma_strip_members(ms.skip(1), rest);
        assert(render_member(ms[0]) + (seq![44u8] + (render_members(ms.skip(1)) + spec_strip(
            rest,
        ))) =~= render_members(ms) + spec_strip(rest));
    }
}


/// Lengths, leading bytes and well-formedness of the member keys.
proof fn lemma_key_facts()
    ensures
        k_pid().len() == 3,
        k_last_dir().len() == 8,
        k_last_numeric().len() == 12,
        k_last().len() == 4,
        k_bid().len() == 3,
        k_ask().len() == 3,
        k_high().len() == 4,
        k_low().len() == 3,
        k_last_close().len() == 10,
        k_pc().len() == 2,
        k_pcp().len() == 3,
        k_pc_col().len() == 6,
        k_turnover().len() == 8,
        k_turnover_numeric().len() == 16,
        k_time().len() == 4,
        k_timestamp().len() == 9,
        k_pid()[0] == 112,
        k_pid()[1] == 105,
        k_bid()[0] == 98,
        k_ask()[0] == 97,
        k_low()[0] == 108,
        k_pcp()[0] == 112,
        k_pcp()[1] == 99,
        k_last()[0] == 108,
        k_high()[0] == 104,
        k_time()[0] == 116,
        k_last_dir()[0] == 108,
        k_turnover()[0] == 116,
        wf_text(k_pid()),
        wf_text(k_last_dir()),
        wf_text(k_last_numeric()),
        wf_text(k_last()),
        wf_text(k_bid()),
        wf_text(k_ask()),
        wf_text(k_high()),
        wf_text(k_low()),
        wf_text(k_last_close()),
        wf_text(k_pc()),
        wf_text(k_pcp()),
        wf_text(k_pc_col()),
        wf_text(k_turnover()),
        wf_text(k_turnover_numeric()),
        wf_text(k_time()),
        wf_text(k_timestamp()),
{
    broadcast use is_ascii_chars_encode_utf8;
    broadcast use encode_utf8_valid_utf8;

    reveal_strlit("pid");
    reveal_strlit("last_dir");
    reveal_strlit("last_numeric");
    reveal_strlit("last");
    reveal_strlit("bid");
    reveal_strlit("ask");
    reveal_strlit("high");
    reveal_strlit("low");
    reveal_strlit("last_close");
    reveal_strlit("pc");
    reveal_strlit("pcp");
    reveal_strlit("pc_col");
    reveal_strlit("turnover");
    reveal_strlit("turnover_numeric");
    reveal_strlit("time");
    reveal_strlit("timestamp");
    assert(is_ascii_chars("pid"@));
    assert(is_ascii_chars("last_dir"@));
    assert(is_ascii_chars("last_numeric"@));
    assert(is_ascii_chars("last"@));
    assert(is_ascii_chars("bid"@));
    assert(is_ascii_chars("ask"@));
    assert(is_ascii_chars("high"@));
    assert(is_ascii_chars("low"@));
    assert(is_ascii_chars("last_close"@));
    assert(is_ascii_chars("pc"@));
    assert(is_ascii_chars("pcp"@));
    assert(is_ascii_chars("pc_col"@));
    assert(is_ascii_chars("turnover"@));
    assert(is_ascii_chars("turnover_numeric"@));
    assert(is_ascii_chars("time"@));
    assert(is_ascii_chars("timestamp"@));
}


pub open spec fn mem_str(key: Seq<u8>, data: Seq<u8>) -> MemberM {
    MemberM { key, is_string: true, data }
}

pub open spec fn mem_num(key: Seq<u8>, data: Seq<u8>) -> MemberM {
    MemberM { key, is_string: false, data }
}

/// A snapshot that can be written back out in the wire shape: every display
/// field is text free of the quote, backslash and closing-brace bytes the
/// protocol reserves, and the raw numeric token is a JSON number.
pub open spec fn wf_snapshot(m: SnapshotM) -> bool {
    &&& wf_text(m.pid)
    &&& (match m.last_dir {
        Some(d) => wf_text(d),
        None => true,
    })
    &&& wf_num(m.last_numeric)
    &&& wf_text(m.last)
    &&& wf_text(m.bid)
    &&& wf_text(m.ask)
    &&& wf_text(m.high)
    &&& wf_text(m.low)
    &&& wf_text(m.last_close)
    &&& wf_text(m.pc)
    &&& wf_text(m.pcp)
    &&& wf_text(m.pc_col)
    &&& wf_text(m.turnover)
    &&& wf_text(m.time)
}

/// The canonical member list that writes a snapshot back out.
pub open spec fn members_of(m: SnapshotM) -> Seq<MemberM> {
    (match m.last_dir {
        Some(d) => seq![mem_str(k_pid(), m.pid), mem_str(k_last_dir(), d)],
        None => seq![mem_str(k_pid(), m.pid)],
    }) + seq![
        mem_num(k_last_numeric(), m.last_numeric),
        mem_str(k_last(), m.last),
        mem_str(k_bid(), m.bid),
        mem_str(k_ask(), m.ask),
        mem_str(k_high(), m.high),
        mem_str(k_low(), m.low),
        mem_str(k_last_close(), m.last_close),
        mem_str(k_pc(), m.pc),
        mem_str(k_pcp(), m.pcp),
        mem_str(k_pc_col(), m.pc_col),
        mem_str(k_turnover(), m.turnover),
        mem_num(k_turnover_numeric(), dec_digits(m.turnover_numeric as nat)),
        mem_str(k_time(), m.time),
        mem_num(k_timestamp(), dec_digits(m.timestamp as nat)),
    ]
}

/// Folding a member list starts with its head.
proof fn lemma_fold_cons(x: MemberM, rest: Seq<MemberM>, acc: PartialM)
    ensures
        spec_fold(seq![x] + rest, acc) == (match spec_set_member(acc, x) {
            Ok(a2) => spec_fold(rest, a2),
            Err(e) => Err(e),
        }),
{
    let s = seq![x] + rest;
    assert(s.len() == 1 + rest.len());
    assert(s[0] == x);
    assert(s.drop_first() =~= rest);
}

/// The canonical member list folds back to exactly its snapshot.
#[verifier::rlimit(100)]
#[verifier::spinoff_prover]
pub proof fn lemma_fold_canonical(m: SnapshotM)
    requires
        wf_snapshot(m),
    ensures
        spec_snapshot_of(members_of(m)) == Ok::<SnapshotM, DecodeError>(m),
        members_of(m).len() >= 1,
        forall|k: int| 0 <= k < members_of(m).len() ==> wf_member(#[trigger] members_of(m)[k]),
{
    lemma_key_facts();
    let ddt = dec_digits(m.turnover_numeric as nat);
    let dds = dec_digits(m.timestamp as nat);
    lemma_dec_digits(m.turnover_numeric as nat);
    lemma_dec_digits(m.timestamp as nat);
    assert(wf_num(ddt) && wf_num(dds)) by {
        assert(forall|i: int| 0 <= i < ddt.len() ==> is_numchar(#[trigger] ddt[i]));
        assert(forall|i: int| 0 <= i < dds.len() ==> is_numchar(#[trigger] dds[i]));
    }
    assert(all_ascii(m.last_numeric));
    lemma_ascii_utf8(m.last_numeric);
    let e = Seq::<MemberM>::empty();
    let c14 = seq![mem_num(k_timestamp(), dds)] + e;
    let c13 = seq![mem_str(k_time(), m.time)] + c14;
    let c12 = seq![mem_num(k_turnover_numeric(), ddt)] + c13;
    let c11 = seq![mem_str(k_turnover(), m.turnover)] + c12;
    let c10 = seq![mem_str(k_pc_col(), m.pc_col)] + c11;
    let c9 = seq![mem_str(k_pcp(), m.pcp)] + c10;
    let c8 = seq![mem_str(k_pc(), m.pc)] + c9;
    let c7 = seq![mem_str(k_last_close(), m.last_close)] + c8;
    let c6 = seq![mem_str(k_low(), m.low)] + c7;
    let c5 = seq![mem_str(k_high(), m.high)] + c6;
    let c4 = seq![mem_str(k_ask(), m.ask)] + c5;
    let c3 = seq![mem_str(k_bid(), m.bid)] + c4;
    let c2 = seq![mem_str(k_last(), m.last)] + c3;
    let c1 = seq![mem_num(k_last_numeric(), m.last_numeric)] + c2;
    let a0 = empty_partial();
    let a1 = PartialM { pid: Some(m.pid), ..a0 };
    let start = if m.last_dir is Some {
        let d = m.last_dir->0;
        let c0b = seq![mem_str(k_last_dir(), d)] + c1;
        let c0 = seq![mem_str(k_pid(), m.pid)] + c0b;
        assert(members_of(m) =~= c0);
        assert(spec_set_member(a0, mem_str(k_pid(), m.pid)) == Ok::<PartialM, DecodeError>(a1));
        lemma_fold_cons(mem_str(k_pid(), m.pid), c0b, a0);
        let a1b = PartialM { last_dir: Some(d), ..a1 };
        assert(spec_set_member(a1, mem_str(k_last_dir(), d)) == Ok::<PartialM, DecodeError>(a1b));
        lemma_fold_cons(mem_str(k_last_dir(), d), c1, a1);
        assert(spec_fold(members_of(m), a0) == spec_fold(c1, a1b));
        a1b
    } else {
        let c0 = seq![mem_str(k_pid(), m.pid)] + c1;
        assert(members_of(m) =~= c0);
        assert(spec_set_member(a0, mem_str(k_pid(), m.pid)) == Ok::<PartialM, DecodeError>(a1));
        lemma_fold_cons(mem_str(k_pid(), m.pid), c1, a0);
        assert(spec_fold(members_of(m), a0) == spec_fold(c1, a1));
        a1
    };
    let b1 = PartialM { last_numeric: Some(m.last_numeric), ..start };
    assert(spec_set_member(start, mem_num(k_last_numeric(), m.last_numeric))
        == Ok::<PartialM, DecodeError>(b1));
    lemma_fold_cons(mem_num(k_last_numeric(), m.last_numeric), c2, start);
    let b2 = PartialM { last: Some(m.last), ..b1 };
    assert(spec_set_member(b1, mem_str(k_last(), m.last)) == Ok::<PartialM, DecodeError>(b2));
    lemma_fold_cons(mem_str(k_last(), m.last), c3, b1);
    let b3 = PartialM { bid: Some(m.bid), ..b2 };
    assert(spec_set_member(b2, mem_str(k_bid(), m.bid)) == Ok::<PartialM, DecodeError>(b3));
    lemma_fold_cons(mem_str(k_bid(), m.bid), c4, b2);
    let b4 = PartialM { ask: Some(m.ask), ..b3 };
    assert(spec_set_member(b3, mem_str(k_ask(), m.ask)) == Ok::<PartialM, DecodeError>(b4));
    lemma_fold_cons(mem_str(k_ask(), m.ask), c5, b3);
    let b5 = PartialM { high: Some(m.high), ..b4 };
    assert(spec_set_member(b4, mem_str(k_high(), m.high)) == Ok::<PartialM, DecodeError>(b5));
    lemma_fold_cons(mem_str(k_high(), m.high), c6, b4);
    let b6 = PartialM { low: Some(m.low), ..b5 };
    assert(spec_set_member(b5, mem_str(k_low(), m.low)) == Ok::<PartialM, DecodeError>(b6));
    lemma_fold_cons(mem_str(k_low(), m.low), c7, b5);
    let b7 = PartialM { last_close: Some(m.last_close), ..b6 };
    assert(spec_set_member(b6, mem_str(k_last_close(), m.last_close))
        == Ok::<PartialM, DecodeError>(b7));
    lemma_fold_cons(mem_str(k_last_close(), m.last_close), c8, b6);
    let b8 = PartialM { pc: Some(m.pc), ..b7 };
    assert(spec_set_member(b7, mem_str(k_pc(), m.pc)) == Ok::<PartialM, DecodeError>(b8));
    lemma_fold_cons(mem_str(k_pc(), m.pc), c9, b7);
    let b9 = PartialM { pcp: Some(m.pcp), ..b8 };
    assert(spec_set_member(b8, mem_str(k_pcp(), m.pcp)) == Ok::<PartialM, DecodeError>(b9));
    lemma_fold_cons(mem_str(k_pcp(), m.pcp), c10, b8);
    let b10 = PartialM { pc_col: Some(m.pc_col), ..b9 };
    assert(spec_set_member(b9, mem_str(k_pc_col(), m.pc_col)) == Ok::<PartialM, DecodeError>(b10));
    lemma_fold_cons(mem_str(k_pc_col(), m.pc_col), c11, b9);
    let b11 = PartialM { turnover: Some(m.turnover), ..b10 };
    assert(spec_set_member(b10, mem_str(k_turnover(), m.turnover))
        == Ok::<PartialM, DecodeError>(b11));
    lemma_fold_cons(mem_str(k_turnover(), m.turnover), c12, b10);
    let b12 = PartialM { turnover_numeric: Some(m.turnover_numeric), ..b11 };
    assert(spec_set_member(b11, mem_num(k_turnover_numeric(), ddt))
        == Ok::<PartialM, DecodeError>(b12)) by {
        assert(val_of_digits(ddt) == m.turnover_numeric as nat);
        assert(((m.turnover_numeric as nat) % 0x100000000) as u32 == m.turnover_numeric);
    }
    lemma_fold_cons(mem_num(k_turnover_numeric(), ddt), c13, b11);
    let b13 = PartialM { time: Some(m.time), ..b12 };
    assert(spec_set_member(b12, mem_str(k_time(), m.time)) == Ok::<PartialM, DecodeError>(b13));
    lemma_fold_cons(mem_str(k_time(), m.time), c14, b12);
    let b14 = PartialM { timestamp: Some(m.timestamp), ..b13 };
    assert(spec_set_member(b13, mem_num(k_timestamp(), dds)) == Ok::<PartialM, DecodeError>(b14))
        by {
        assert(val_of_digits(dds) == m.timestamp as nat);
    }
    lemma_fold_cons(mem_num(k_timestamp(), dds), e, b13);
    assert(spec_fold(e, b14) == Ok::<PartialM, DecodeError>(b14));
    assert(spec_fold(members_of(m), a0) == Ok::<PartialM, DecodeError>(b14));
    assert(spec_snapshot_of(members_of(m)) == Ok::<SnapshotM, DecodeError>(m)) by {
        assert(spec_fold(members_of(m), empty_partial()) == Ok::<PartialM, DecodeError>(b14));
        let built = SnapshotM {
            pid: m.pid,
            last_dir: b14.last_dir,
            last_numeric: m.last_numeric,
            last: m.last,
            bid: m.bid,
            ask: m.ask,
            high: m.high,
            low: m.low,
            last_close: m.last_close,
            pc: m.pc,
            pcp: m.pcp,
            pc_col: m.pc_col,
            turnover: m.turnover,
            turnover_numeric: m.turnover_numeric,
            time: m.time,
            timestamp: m.timestamp,
        };
        assert(built =~= m);
    }
    assert(wf_member(mem_str(k_pid(), m.pid)));
    assert(wf_member(mem_num(k_last_numeric(), m.last_numeric)));
    assert(wf_member(mem_str(k_last(), m.last)));
    assert(wf_member(mem_str(k_bid(), m.bid)));
    assert(wf_member(mem_str(k_ask(), m.ask)));
    assert(wf_member(mem_str(k_high(), m.high)));
    assert(wf_member(mem_str(k_low(), m.low)));
    assert(wf_member(mem_str(k_last_close(), m.last_close)));
    assert(wf_member(mem_str(k_pc(), m.pc)));
    assert(wf_member(mem_str(k_pcp(), m.pcp)));
    assert(wf_member(mem_str(k_pc_col(), m.pc_col)));
    assert(wf_member(mem_str(k_turnover(), m.turnover)));
    assert(wf_member(mem_num(k_turnover_numeric(), ddt)));
    assert(wf_member(mem_str(k_time(), m.time)));
    assert(wf_member(mem_num(k_timestamp(), dds)));
    if m.last_dir is Some {
        assert(wf_member(mem_str(k_last_dir(), m.last_dir->0)));
    }
}


/// No escaped member holds a closing brace.
proof fn lemma_esc_member_no_brace(m: MemberM)
    requires
        wf_member(m),
    ensures
        forall|i: int| 0 <= i < esc_member(m).len() ==> #[trigger] esc_member(m)[i] != 125,
{
    let em = esc_member(m);
    let ev = esc_val(m.is_string, m.data);
    let p1 = esc_quote() + m.key;
    let p2 = p1 + esc_quote();
    let p3 = p2 + seq![58u8];
    assert(em == p3 + ev);
    assert forall|i: int| 0 <= i < em.len() implies em[i] != 125 by {
        if i < p3.len() {
            assert(em[i] == p3[i]);
            if i < p2.len() {
                assert(p3[i] == p2[i]);
                if i < p1.len() {
                    assert(p2[i] == p1[i]);
                    if i < 4 {
                        assert(p1[i] == esc_quote()[i]);
                    } else {
                        assert(p1[i] == m.key[i - 4]);
                        assert(wf_text_byte(m.key[i - 4]));
                    }
                } else {
                    assert(p2[i] == esc_quote()[i - p1.len()]);
                }
            } else {
                assert(p3[i] == 58);
            }
        } else {
            let t = i - p3.len() as int;
            assert(em[i] == ev[t]);
            if m.is_string {
                let q1 = esc_quote() + m.data;
                assert(ev == q1 + esc_quote());
                if t < q1.len() {
                    assert(ev[t] == q1[t]);
                    if t < 4 {
                        assert(q1[t] == esc_quote()[t]);
                    } else {
                        assert(q1[t] == m.data[t - 4]);
                        assert(wf_text_byte(m.data[t - 4]));
                    }
                } else {
                    assert(ev[t] == esc_quote()[t - q1.len()]);
                }
            } else {
                assert(ev[t] == m.data[t]);
                assert(is_numchar(m.data[t]));
            }
        }
    }
}

/// No escaped member list holds a closing brace.
proof fn lemma_esc_members_no_brace(ms: Seq<MemberM>)
    requires
        forall|k: int| 0 <= k < ms.len() ==> wf_member(#[trigger] ms[k]),
    ensures
        forall|i: int| 0 <= i < esc_members(ms).len() ==> #[trigger] esc_members(ms)[i] != 125,
    decreases ms.len(),
{
    if ms.len() == 0 {
    } else if ms.len() == 1 {
        lemma_esc_member_no_brace(ms[0]);
        assert(esc_members(ms) == esc_member(ms[0]));
    } else {
        lemma_esc_member_no_brace(ms[0]);
        assert(forall|k: int| 0 <= k < ms.skip(1).len() ==> wf_member(#[trigger] ms.skip(1)[k]))
            by {
            assert(forall|k: int| 0 <= k < ms.skip(1).len() ==> ms.skip(1)[k] == ms[k + 1]);
        }
        lemma_esc_members_no_brace(ms.skip(1));
        let em0 = esc_member(ms[0]);
        let c1 = em0 + seq![44u8];
        let rest = esc_members(ms.skip(1));
        assert(esc_members(ms) == em0 + seq![44u8] + rest);
        assert(esc_members(ms) == c1 + rest);
        assert forall|i: int| 0 <= i < esc_members(ms).len() implies esc_members(ms)[i] != 125 by {
            if i < c1.len() {
                assert(esc_members(ms)[i] == c1[i]);
                if i < em0.len() {
                    assert(c1[i] == em0[i]);
                } else {
                    assert(c1[i] == 44);
                }
            } else {
                assert(esc_members(ms)[i] == rest[i - c1.len()]);
            }
        }
    }
}

/// The wire envelope that writes a snapshot out: any prefix that does not
/// itself hold the delimiter, the delimiter, the escaped object, and any
/// trailing bytes.
pub open spec fn render_envelope(pre: Seq<u8>, m: SnapshotM, suf: Seq<u8>) -> Seq<u8> {
    pre + seq![58u8, 58u8, 123u8] + esc_members(members_of(m)) + seq![125u8] + suf
}

/// A prefix in which the delimiter `::{` does not occur.
pub open spec fn wf_prefix(pre: Seq<u8>) -> bool {
    forall|i: int|
        0 <= i && i + 2 < pre.len() ==> !(#[trigger] pre[i] == 58 && pre[i + 1] == 58 && pre[i
            + 2] == 123)
}

/// The round-trip law: a well-formed snapshot written out in the wire
/// envelope shape decodes back to exactly itself.
#[verifier::rlimit(100)]
#[verifier::spinoff_prover]
pub proof fn lemma_round_trip(pre: Seq<u8>, m: SnapshotM, suf: Seq<u8>)
    requires
        wf_snapshot(m),
        wf_prefix(pre),
    ensures
        spec_decode(render_envelope(pre, m, suf)) == Ok::<SnapshotM, DecodeError>(m),
{
    lemma_fold_canonical(m);
    let ms = members_of(m);
    let es = esc_members(ms);
    lemma_esc_members_no_brace(ms);
    let s = render_envelope(pre, m, suf);
    let p = pre.len() as int;
    let nq = es.len() as int;
    let q = p + 3 + nq;
    let g1 = pre + seq![58u8, 58u8, 123u8];
    let g2 = g1 + es;
    let g3 = g2 + seq![125u8];
    assert(s == g3 + suf);
    assert(forall|t: int| 0 <= t < g3.len() ==> s[t] == #[trigger] g3[t]);
    assert(forall|t: int| 0 <= t < g2.len() ==> #[trigger] g3[t] == g2[t]);
    assert(forall|t: int| 0 <= t < g1.len() ==> #[trigger] g2[t] == g1[t]);
    assert(forall|t: int| 0 <= t < p ==> #[trigger] g1[t] == pre[t]);
    assert(forall|t: int| 0 <= t < nq ==> #[trigger] es[t] == g2[g1.len() + t]);
    assert(s[p] == 58 && s[p + 1] == 58 && s[p + 2] == 123) by {
        assert(g1[p] == 58 && g1[p + 1] == 58 && g1[p + 2] == 123);
        assert(s[p] == g3[p] && s[p + 1] == g3[p + 1] && s[p + 2] == g3[p + 2]);
    }
    assert(s[q] == 125) by {
        assert(g3[q] == 125);
    }
    assert(forall|t: int| p + 3 <= t < q ==> #[trigger] s[t] != 125) by {
        assert(forall|t: int|
            p + 3 <= t < q ==> #[trigger] s[t] == g3[t] && g3[t] == g2[t] && g2[t] == es[t - (p
                + 3)]);
    }
    assert(s.subrange(p, p + 3) =~= delim());
    lemma_find_from(s, delim(), 0);
    match spec_find_from(s, delim(), 0) {
        None => {
            assert(s.subrange(p, p + 3) == delim());
            assert(false);
        },
        Some(k) => {
            if k < p {
                assert(s.subrange(k, k + 3) == delim());
                assert(s[k] == 58 && s[k + 1] == 58 && s[k + 2] == 123) by {
                    assert(s.subrange(k, k + 3)[0] == s[k]);
                    assert(s.subrange(k, k + 3)[1] == s[k + 1]);
                    assert(s.subrange(k, k + 3)[2] == s[k + 2]);
                    assert(delim()[0] == 58 && delim()[1] == 58 && delim()[2] == 123);
                }
                if k + 2 < p {
                    assert(pre[k] == 58 && pre[k + 1] == 58 && pre[k + 2] == 123);
                    assert(false);
                } else {
                    assert(s[k + 2] == g1[k + 2]);
                    assert(g1[k + 2] == 58);
                    assert(false);
                }
            }
            if k > p {
                assert(s.subrange(p, p + 3) != delim());
                assert(false);
            }
            assert(k == p);
        },
    }
    assert(spec_find_from(s, delim(), 0) == Some(p));
    assert(s.subrange(q, q + 1) =~= rbrace());
    lemma_find_from(s, rbrace(), p + 3);
    match spec_find_from(s, rbrace(), p + 3) {
        None => {
            assert(s.subrange(q, q + 1) == rbrace());
            assert(false);
        },
        Some(k) => {
            if k < q {
                assert(s.subrange(k, k + 1) == rbrace());
                assert(s[k] == 125) by {
                    assert(s.subrange(k, k + 1)[0] == s[k]);
                    assert(rbrace()[0] == 125);
                }
                assert(false);
            }
            if k > q {
                assert(s.subrange(q, q + 1) != rbrace());
                assert(false);
            }
            assert(k == q);
        },
    }
    assert(spec_find_from(s, rbrace(), p + 3) == Some(q));
    let inner = es + seq![125u8];
    assert(s.subrange(p + 2, q + 1) =~= seq![123u8] + inner) by {
        assert(forall|t: int|
            0 <= t < nq ==> #[trigger] s[p + 3 + t] == g3[p + 3 + t] && g3[p + 3 + t] == g2[p + 3
                + t] && g2[p + 3 + t] == es[t]);
    }
    assert(forall|i: int| 0 <= i < seq![123u8].len() ==> #[trigger] seq![123u8][i] != 92);
    lemma_strip_no_bs(seq![123u8], inner);
    lemma_strip_members(ms, seq![125u8]);
    let one = seq![125u8];
    assert(one[0] == 125 && one.len() == 1);
    assert(one.skip(1) =~= Seq::<u8>::empty());
    assert(spec_strip(Seq::<u8>::empty()) =~= Seq::<u8>::empty());
    assert(spec_strip(one) == seq![one[0]] + spec_strip(one.skip(1)));
    assert(seq![one[0]] + spec_strip(one.skip(1)) =~= one);
    assert(spec_strip(seq![125u8]) == seq![125u8]);
    assert(spec_strip(s.subrange(p + 2, q + 1)) =~= render_object(ms)) by {
        assert(spec_strip(seq![123u8] + inner) == seq![123u8] + spec_strip(inner));
        assert(spec_strip(inner) == render_members(ms) + seq![125u8]);
        assert(seq![123u8] + (render_members(ms) + seq![125u8]) =~= render_object(ms));
    }
    lemma_parse_object_render(ms);
    assert(spec_snapshot_json(render_object(ms)) == Ok::<SnapshotM, DecodeError>(m));
    assert(spec_decode(s) == spec_snapshot_json(spec_strip(s.subrange(p + 2, q + 1))));
}


} // verus!
