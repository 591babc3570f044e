//! The decoded price snapshot, the decode error taxonomy, and the mapping
//! from parsed members to a snapshot.

use vstd::prelude::*;
use vstd::string::StringSliceAdditionalSpecFns;
use vstd::utf8::{decode_utf8_encode_utf8, encode_utf8, valid_utf8};
use crate::json::{
    is_json_number, json_number_check, members_view, parse_object, JsonMember, MemberM,
    spec_parse_object,
};
use crate::wire::{all_digits, bytes_eq, bytes_to_string, parse_u64_digits, val_of_digits};

verus! {

/// Why a wire frame failed to decode.
#[derive(Clone, Copy, Debug, PartialEq, Eq, Structural)]
pub enum DecodeError {
    /// The envelope delimiters (`::{` and a closing `}` after it) were not found.
    MalformedEnvelope,
    /// The unescaped slice is not a snapshot object, or a required field is
    /// missing, duplicated or of the wrong kind.
    InvalidJson,
    /// The turnover field held a non-empty, non-numeric string.
    InvalidNumber,
}

/// The default turnover count when the field is absent or empty.
pub fn default_zero() -> (r: u32)
    ensures
        r == 0,
{
    0
}

/// Mathematical model of a snapshot: every textual field as the bytes it was
/// read from on the wire.
#[verifier::ext_equal]
pub struct SnapshotM {
    pub pid: Seq<u8>,
    pub last_dir: Option<Seq<u8>>,
    pub last_numeric: Seq<u8>,
    pub last: Seq<u8>,
    pub bid: Seq<u8>,
    pub ask: Seq<u8>,
    pub high: Seq<u8>,
    pub low: Seq<u8>,
    pub last_close: Seq<u8>,
    pub pc: Seq<u8>,
    pub pcp: Seq<u8>,
    pub pc_col: Seq<u8>,
    pub turnover: Seq<u8>,
    pub turnover_numeric: u32,
    pub time: Seq<u8>,
    pub timestamp: u64,
}

/// Snapshot data of one instrument, as decoded from a wire frame.
///
/// `last_numeric` keeps the numeric token exactly as it stood on the wire.
#[derive(Debug, PartialEq)]
pub struct Snapshot {
    pub pid: String,
    pub last_dir: Option<String>,
    pub last_numeric: String,
    pub last: String,
    pub bid: String,
    pub ask: String,
    pub high: String,
    pub low: String,
    pub last_close: String,
    pub pc: String,
    pub pcp: String,
    pub pc_col: String,
    pub turnover: String,
    pub turnover_numeric: u32,
    pub time: String,
    pub timestamp: u64,
}

pub open spec fn opt_bytes(o: Option<String>) -> Option<Seq<u8>> {
    match o {
        Some(s) => Some(encode_utf8(s@)),
        None => None,
    }
}

impl View for Snapshot {
    type V = SnapshotM;

    open spec fn view(&self) -> SnapshotM {
        SnapshotM {
            pid: encode_utf8(self.pid@),
            last_dir: opt_bytes(self.last_dir),
            last_numeric: encode_utf8(self.last_numeric@),
            last: encode_utf8(self.last@),
            bid: encode_utf8(self.bid@),
            ask: encode_utf8(self.ask@),
            high: encode_utf8(self.high@),
            low: encode_utf8(self.low@),
            last_close: encode_utf8(self.last_close@),
            pc: encode_utf8(self.pc@),
            pcp: encode_utf8(self.pcp@),
            pc_col: encode_utf8(self.pc_col@),
            turnover: encode_utf8(self.turnover@),
            turnover_numeric: self.turnover_numeric,
            time: encode_utf8(self.time@),
            timestamp: self.timestamp,
        }
    }
}

pub open spec fn k_pid() -> Seq<u8> {
    encode_utf8("pid"@)
}

pub open spec fn k_last_dir() -> Seq<u8> {
    encode_utf8("last_dir"@)
}

pub open spec fn k_last_numeric() -> Seq<u8> {
    encode_utf8("last_numeric"@)
}

pub open spec fn k_last() -> Seq<u8> {
    encode_utf8("last"@)
}

pub open spec fn k_bid() -> Seq<u8> {
    encode_utf8("bid"@)
}

pub open spec fn k_ask() -> Seq<u8> {
    encode_utf8("ask"@)
}

pub open spec fn k_high() -> Seq<u8> {
    encode_utf8("high"@)
}

pub open spec fn k_low() -> Seq<u8> {
    encode_utf8("low"@)
}

pub open spec fn k_last_close() -> Seq<u8> {
    encode_utf8("last_close"@)
}

pub open spec fn k_pc() -> Seq<u8> {
    encode_utf8("pc"@)
}

pub open spec fn k_pcp() -> Seq<u8> {
    encode_utf8("pcp"@)
}

pub open spec fn k_pc_col() -> Seq<u8> {
    encode_utf8("pc_col"@)
}

pub open spec fn k_turnover() -> Seq<u8> {
    encode_utf8("turnover"@)
}

pub open spec fn k_turnover_numeric() -> Seq<u8> {
    encode_utf8("turnover_numeric"@)
}

pub open spec fn k_time() -> Seq<u8> {
    encode_utf8("time"@)
}

pub open spec fn k_timestamp() -> Seq<u8> {
    encode_utf8("timestamp"@)
}

/// The fields gathered so far while walking the members of a snapshot object.
#[verifier::ext_equal]
pub struct PartialM {
    pub pid: Option<Seq<u8>>,
    pub last_dir: Option<Seq<u8>>,
    pub last_numeric: Option<Seq<u8>>,
    pub last: Option<Seq<u8>>,
    pub bid: Option<Seq<u8>>,
    pub ask: Option<Seq<u8>>,
    pub high: Option<Seq<u8>>,
    pub low: Option<Seq<u8>>,
    pub last_close: Option<Seq<u8>>,
    pub pc: Option<Seq<u8>>,
    pub pcp: Option<Seq<u8>>,
    pub pc_col: Option<Seq<u8>>,
    pub turnover: Option<Seq<u8>>,
    pub turnover_numeric: Option<u32>,
    pub time: Option<Seq<u8>>,
    pub timestamp: Option<u64>,
}

pub open spec fn empty_partial() -> PartialM {
    PartialM {
        pid: None,
        last_dir: None,
        last_numeric: None,
        last: None,
        bid: None,
        ask: None,
        high: None,
        low: None,
        last_close: None,
        pc: None,
        pcp: None,
        pc_col: None,
        turnover: None,
        turnover_numeric: None,
        time: None,
        timestamp: None,
    }
}

/// Accepting a textual field: it must be a string member, the first with its
/// key, and hold text (valid UTF-8).
pub open spec fn spec_set_str(slot: Option<Seq<u8>>, m: MemberM) -> Result<
    Option<Seq<u8>>,
    DecodeError,
> {
    if !m.is_string {
        Err(DecodeError::InvalidJson)
    } else if slot is Some {
        Err(DecodeError::InvalidJson)
    } else if !valid_utf8(m.data) {
        Err(DecodeError::InvalidJson)
    } else {
        Ok(Some(m.data))
    }
}

/// The turnover count rule: a numeric member is truncated to 32 bits; a string
/// member is empty (then zero) or a string of decimal digits whose value fits
/// in 32 bits — anything else fails as an invalid number.
pub open spec fn spec_turnover(is_string: bool, d: Seq<u8>) -> Result<u32, DecodeError> {
    if !is_string {
        if d.len() > 0 && all_digits(d) && val_of_digits(d) <= u64::MAX {
            Ok((val_of_digits(d) % 0x100000000) as u32)
        } else {
            Err(DecodeError::InvalidJson)
        }
    } else if d.len() == 0 {
        Ok(0)
    } else if all_digits(d) && val_of_digits(d) <= u32::MAX {
        Ok(val_of_digits(d) as u32)
    } else {
        Err(DecodeError::InvalidNumber)
    }
}

/// An epoch-seconds member: an unsigned decimal number fitting 64 bits.
pub open spec fn spec_timestamp(is_string: bool, d: Seq<u8>) -> Result<u64, DecodeError> {
    if !is_string && d.len() > 0 && all_digits(d) && val_of_digits(d) <= u64::MAX {
        Ok(val_of_digits(d) as u64)
    } else {
        Err(DecodeError::InvalidJson)
    }
}

/// A raw numeric member kept as its wire text: it must be a JSON number, not
/// a keyword.
pub open spec fn spec_set_num_raw(slot: Option<Seq<u8>>, m: MemberM) -> Result<
    Option<Seq<u8>>,
    DecodeError,
> {
    if m.is_string {
        Err(DecodeError::InvalidJson)
    } else if slot is Some {
        Err(DecodeError::InvalidJson)
    } else if !is_json_number(m.data) {
        Err(DecodeError::InvalidJson)
    } else if !valid_utf8(m.data) {
        Err(DecodeError::InvalidJson)
    } else {
        Ok(Some(m.data))
    }
}

/// Folds one member into the partial snapshot; members with unknown keys are
/// ignored, a repeated known key is an error.
pub open spec fn spec_set_member(acc: PartialM, m: MemberM) -> Result<PartialM, DecodeError> {
    if m.key == k_pid() {
        match spec_set_str(acc.pid, m) {
            Ok(v) => Ok(PartialM { pid: v, ..acc }),
            Err(e) => Err(e),
        }
    } else if m.key == k_last_dir() {
        match spec_set_str(acc.last_dir, m) {
            Ok(v) => Ok(PartialM { last_dir: v, ..acc }),
            Err(e) => Err(e),
        }
    } else if m.key == k_last_numeric() {
        match spec_set_num_raw(acc.last_numeric, m) {
            Ok(v) => Ok(PartialM { last_numeric: v, ..acc }),
            Err(e) => Err(e),
        }
    } else if m.key == k_last() {
        match spec_set_str(acc.last, m) {
            Ok(v) => Ok(PartialM { last: v, ..acc }),
            Err(e) => Err(e),
        }
    } else if m.key == k_bid() {
        match spec_set_str(acc.bid, m) {
            Ok(v) => Ok(PartialM { bid: v, ..acc }),
            Err(e) => Err(e),
        }
    } else if m.key == k_ask() {
        match spec_set_str(acc.ask, m) {
            Ok(v) => Ok(PartialM { ask: v, ..acc }),
            Err(e) => Err(e),
        }
    } else if m.key == k_high() {
        match spec_set_str(acc.high, m) {
            Ok(v) => Ok(PartialM { high: v, ..acc }),
            Err(e) => Err(e),
        }
    } else if m.key == k_low() {
        match spec_set_str(acc.low, m) {
            Ok(v) => Ok(PartialM { low: v, ..acc }),
            Err(e) => Err(e),
        }
    } else if m.key == k_last_close() {
        match spec_set_str(acc.last_close, m) {
            Ok(v) => Ok(PartialM { last_close: v, ..acc }),
            Err(e) => Err(e),
        }
    } else if m.key == k_pc() {
        match spec_set_str(acc.pc, m) {
            Ok(v) => Ok(PartialM { pc: v, ..acc }),
            Err(e) => Err(e),
        }
    } else if m.key == k_pcp() {
        match spec_set_str(acc.pcp, m) {
            Ok(v) => Ok(PartialM { pcp: v, ..acc }),
            Err(e) => Err(e),
        }
    } else if m.key == k_pc_col() {
        match spec_set_str(acc.pc_col, m) {
            Ok(v) => Ok(PartialM { pc_col: v, ..acc }),
            Err(e) => Err(e),
        }
    } else if m.key == k_turnover() {
        match spec_set_str(acc.turnover, m) {
            Ok(v) => Ok(PartialM { turnover: v, ..acc }),
            Err(e) => Err(e),
        }
    } else if m.key == k_turnover_numeric() {
        if acc.turnover_numeric is Some {
            Err(DecodeError::InvalidJson)
        } else {
            match spec_turnover(m.is_string, m.data) {
                Ok(v) => Ok(PartialM { turnover_numeric: Some(v), ..acc }),
                Err(e) => Err(e),
            }
        }
    } else if m.key == k_time() {
        match spec_set_str(acc.time, m) {
            Ok(v) => Ok(PartialM { time: v, ..acc }),
            Err(e) => Err(e),
        }
    } else if m.key == k_timestamp() {
        if acc.timestamp is Some {
            Err(DecodeError::InvalidJson)
        } else {
            match spec_timestamp(m.is_string, m.data) {
                Ok(v) => Ok(PartialM { timestamp: Some(v), ..acc }),
                Err(e) => Err(e),
            }
        }
    } else {
        Ok(acc)
    }
}

pub open spec fn spec_fold(ms: Seq<MemberM>, acc: PartialM) -> Result<PartialM, DecodeError>
    decreases ms.len(),
{
    if ms.len() == 0 {
        Ok(acc)
    } else {
        match spec_set_member(acc, ms[0]) {
            Ok(a2) => spec_fold(ms.drop_first(), a2),
            Err(e) => Err(e),
        }
    }
}

/// The finished snapshot: required fields must be present, the optional
/// display fields default to empty text, the turnover count to zero.
pub open spec fn spec_finalize(p: PartialM) -> Result<SnapshotM, DecodeError> {
    if p.pid is Some && p.last_numeric is Some && p.last is Some && p.bid is Some && p.ask is Some
        && p.high is Some && p.low is Some && p.pc is Some && p.pcp is Some && p.pc_col is Some
        && p.time is Some && p.timestamp is Some {
        Ok(
            SnapshotM {
                pid: p.pid->Some_0,
                last_dir: p.last_dir,
                last_numeric: p.last_numeric->Some_0,
                last: p.last->Some_0,
                bid: p.bid->Some_0,
                ask: p.ask->Some_0,
                high: p.high->Some_0,
                low: p.low->Some_0,
                last_close: if p.last_close is Some {
                    p.last_close->Some_0
                } else {
                    Seq::empty()
                },
                pc: p.pc->Some_0,
                pcp: p.pcp->Some_0,
                pc_col: p.pc_col->Some_0,
                turnover: if p.turnover is Some {
                    p.turnover->Some_0
                } else {
                    Seq::empty()
                },
                turnover_numeric: if p.turnover_numeric is Some {
                    p.turnover_numeric->Some_0
                } else {
                    0
                },
                time: p.time->Some_0,
                timestamp: p.timestamp->Some_0,
            },
        )
    } else {
        Err(DecodeError::InvalidJson)
    }
}

/// What a snapshot object's member list decodes to.
pub open spec fn spec_snapshot_of(ms: Seq<MemberM>) -> Result<SnapshotM, DecodeError> {
    match spec_fold(ms, empty_partial()) {
        Ok(p) => spec_finalize(p),
        Err(e) => Err(e),
    }
}

/// What a snapshot JSON text decodes to.
pub open spec fn spec_snapshot_json(s: Seq<u8>) -> Result<SnapshotM, DecodeError> {
    match spec_parse_object(s) {
        Some(ms) => spec_snapshot_of(ms),
        None => Err(DecodeError::InvalidJson),
    }
}

/// The fields gathered so far by the executable fold.
struct Partial {
    pid: Option<String>,
    last_dir: Option<String>,
    last_numeric: Option<String>,
    last: Option<String>,
    bid: Option<String>,
    ask: Option<String>,
    high: Option<String>,
    low: Option<String>,
    last_close: Option<String>,
    pc: Option<String>,
    pcp: Option<String>,
    pc_col: Option<String>,
    turnover: Option<String>,
    turnover_numeric: Option<u32>,
    time: Option<String>,
    timestamp: Option<u64>,
}

spec fn partial_view(p: Partial) -> PartialM {
    PartialM {
        pid: opt_bytes(p.pid),
        last_dir: opt_bytes(p.last_dir),
        last_numeric: opt_bytes(p.last_numeric),
        last: opt_bytes(p.last),
        bid: opt_bytes(p.bid),
        ask: opt_bytes(p.ask),
        high: opt_bytes(p.high),
        low: opt_bytes(p.low),
        last_close: opt_bytes(p.last_close),
        pc: opt_bytes(p.pc),
        pcp: opt_bytes(p.pcp),
        pc_col: opt_bytes(p.pc_col),
        turnover: opt_bytes(p.turnover),
        turnover_numeric: p.turnover_numeric,
        time: opt_bytes(p.time),
        timestamp: p.timestamp,
    }
}

fn set_str_field(slot: &mut Option<String>, m: &JsonMember) -> (r: Result<(), DecodeError>)
    ensures
        match spec_set_str(opt_bytes(*old(slot)), m@) {
            Ok(v) => r is Ok && opt_bytes(*final(slot)) == v,
            Err(e) => r == Err::<(), DecodeError>(e),
        },
{
    if !m.is_string {
        return Err(DecodeError::InvalidJson);
    }
    if slot.is_some() {
        return Err(DecodeError::InvalidJson);
    }
    match bytes_to_string(&m.data) {
        Some(s) => {
            proof {
                decode_utf8_encode_utf8(m.data@);
            }
            *slot = Some(s);
            Ok(())
        },
        None => Err(DecodeError::InvalidJson),
    }
}

/// The turnover count of one member, by the protocol's rule.
fn turnover_value(m: &JsonMember) -> (r: Result<u32, DecodeError>)
    ensures
        r == spec_turnover(m@.is_string, m@.data),
{
    let n = m.data.len();
    if !m.is_string {
        match parse_u64_digits(m.data.as_slice(), 0, n) {
            Some(v) => {
                proof {
                    assert(m.data@.subrange(0, n as int) =~= m.data@);
                    assert(v as u32 == v % 0x100000000) by (bit_vector);
                }
                Ok(#[verifier::truncate] (v as u32))
            },
            None => {
                proof {
                    assert(m.data@.subrange(0, n as int) =~= m.data@);
                }
                Err(DecodeError::InvalidJson)
            },
        }
    } else if n == 0 {
        Ok(0)
    } else {
        proof {
            assert(m.data@.subrange(0, n as int) =~= m.data@);
        }
        match parse_u64_digits(m.data.as_slice(), 0, n) {
            Some(v) => {
                if v <= 0xffffffff {
                    Ok(v as u32)
                } else {
                    Err(DecodeError::InvalidNumber)
                }
            },
            None => Err(DecodeError::InvalidNumber),
        }
    }
}

/// The timestamp of one member: an unsigned decimal fitting 64 bits.
fn timestamp_value(m: &JsonMember) -> (r: Result<u64, DecodeError>)
    ensures
        r == spec_timestamp(m@.is_string, m@.data),
{
    let n = m.data.len();
    if m.is_string {
        return Err(DecodeError::InvalidJson);
    }
    match parse_u64_digits(m.data.as_slice(), 0, n) {
        Some(v) => {
            proof {
                assert(m.data@.subrange(0, n as int) =~= m.data@);
            }
            Ok(v)
        },
        None => {
            proof {
                assert(m.data@.subrange(0, n as int) =~= m.data@);
            }
            Err(DecodeError::InvalidJson)
        },
    }
}

#[verifier::rlimit(100)]
#[verifier::spinoff_prover]
fn set_member(acc: &mut Partial, m: &JsonMember) -> (r: Result<(), DecodeError>)
    ensures
        match spec_set_member(partial_view(*old(acc)), m@) {
            Ok(p2) => r is Ok && partial_view(*final(acc)) == p2,
            Err(e) => r == Err::<(), DecodeError>(e),
        },
{
    let k = m.key.as_slice();
    if bytes_eq(k, "pid".as_bytes()) {
        match set_str_field(&mut acc.pid, m) {
            Ok(u) => Ok(u),
            Err(e) => Err(e),
        }
    } else if bytes_eq(k, "last_dir".as_bytes()) {
        match set_str_field(&mut acc.last_dir, m) {
            Ok(u) => Ok(u),
            Err(e) => Err(e),
        }
    } else if bytes_eq(k, "last_numeric".as_bytes()) {
        if m.is_string || acc.last_numeric.is_some() {
            Err(DecodeError::InvalidJson)
        } else if !json_number_check(m.data.as_slice()) {
            Err(DecodeError::InvalidJson)
        } else {
            match bytes_to_string(&m.data) {
                Some(s) => {
                    proof {
                        decode_utf8_encode_utf8(m.data@);
                    }
                    acc.last_numeric = Some(s);
                    Ok(())
                },
                None => Err(DecodeError::InvalidJson),
            }
        }
    } else if bytes_eq(k, "last".as_bytes()) {
        match set_str_field(&mut acc.last, m) {
            Ok(u) => Ok(u),
            Err(e) => Err(e),
        }
    } else if bytes_eq(k, "bid".as_bytes()) {
        match set_str_field(&mut acc.bid, m) {
            Ok(u) => Ok(u),
            Err(e) => Err(e),
        }
    } else if bytes_eq(k, "ask".as_bytes()) {
        match set_str_field(&mut acc.ask, m) {
            Ok(u) => Ok(u),
            Err(e) => Err(e),
        }
    } else if bytes_eq(k, "high".as_bytes()) {
        match set_str_field(&mut acc.high, m) {
            Ok(u) => Ok(u),
            Err(e) => Err(e),
        }
    } else if bytes_eq(k, "low".as_bytes()) {
        match set_str_field(&mut acc.low, m) {
            Ok(u) => Ok(u),
            Err(e) => Err(e),
        }
    } else if bytes_eq(k, "last_close".as_bytes()) {
        match set_str_field(&mut acc.last_close, m) {
            Ok(u) => Ok(u),
            Err(e) => Err(e),
        }
    } else if bytes_eq(k, "pc".as_bytes()) {
        match set_str_field(&mut acc.pc, m) {
            Ok(u) => Ok(u),
            Err(e) => Err(e),
        }
    } else if bytes_eq(k, "pcp".as_bytes()) {
        match set_str_field(&mut acc.pcp, m) {
            Ok(u) => Ok(u),
            Err(e) => Err(e),
        }
    } else if bytes_eq(k, "pc_col".as_bytes()) {
        match set_str_field(&mut acc.pc_col, m) {
            Ok(u) => Ok(u),
            Err(e) => Err(e),
        }
    } else if bytes_eq(k, "turnover".as_bytes()) {
        match set_str_field(&mut acc.turnover, m) {
            Ok(u) => Ok(u),
            Err(e) => Err(e),
        }
    } else if bytes_eq(k, "turnover_numeric".as_bytes()) {
        if acc.turnover_numeric.is_some() {
            Err(DecodeError::InvalidJson)
        } else {
            match turnover_value(m) {
                Ok(v) => {
                    acc.turnover_numeric = Some(v);
                    Ok(())
                },
                Err(e) => Err(e),
            }
        }
    } else if bytes_eq(k, "time".as_bytes()) {
        match set_str_field(&mut acc.time, m) {
            Ok(u) => Ok(u),
            Err(e) => Err(e),
        }
    } else if bytes_eq(k, "timestamp".as_bytes()) {
        if acc.timestamp.is_some() {
            Err(DecodeError::InvalidJson)
        } else {
            match timestamp_value(m) {
                Ok(v) => {
                    acc.timestamp = Some(v);
                    Ok(())
                },
                Err(e) => Err(e),
            }
        }
    } else {
        Ok(())
    }
}

fn fold_members(ms: &Vec<JsonMember>) -> (r: Result<Partial, DecodeError>)
    ensures
        match r {
            Ok(p) => spec_fold(members_view(ms@), empty_partial()) == Ok::<PartialM, DecodeError>(partial_view(p)),
            Err(e) => spec_fold(members_view(ms@), empty_partial()) == Err::<PartialM, _>(e),
        },
{
    let ghost msv = members_view(ms@);
    let mut acc = Partial {
        pid: None,
        last_dir: None,
        last_numeric: None,
        last: None,
        bid: None,
        ask: None,
        high: None,
        low: None,
        last_close: None,
        pc: None,
        pcp: None,
        pc_col: None,
        turnover: None,
        turnover_numeric: None,
        time: None,
        timestamp: None,
    };
    proof {
        assert(partial_view(acc) =~= empty_partial());
        assert(msv.skip(0) =~= msv);
    }
    let n = ms.len();
    let mut i: usize = 0;
    while i < n
        invariant
            i <= n == ms@.len(),
            msv == members_view(ms@),
            spec_fold(msv, empty_partial()) == spec_fold(msv.skip(i as int), partial_view(acc)),
        decreases n - i,
    {
        let ghost rest = msv.skip(i as int);
        proof {
            assert(rest[0] == msv[i as int]);
            assert(msv[i as int] == ms@[i as int]@);
            assert(rest.drop_first() =~= msv.skip(i + 1));
        }
        match set_member(&mut acc, &ms[i]) {
            Ok(_) => {},
            Err(e) => {
                return Err(e);
            },
        }
        i = i + 1;
    }
    proof {
        assert(msv.skip(n as int) =~= Seq::<MemberM>::empty());
    }
    Ok(acc)
}

fn finalize(p: Partial) -> (r: Result<Snapshot, DecodeError>)
    ensures
        match r {
            Ok(s) => spec_finalize(partial_view(p)) == Ok::<SnapshotM, DecodeError>(s@),
            Err(e) => spec_finalize(partial_view(p)) == Err::<SnapshotM, _>(e),
        },
{
    let Partial {
        pid,
        last_dir,
        last_numeric,
        last,
        bid,
        ask,
        high,
        low,
        last_close,
        pc,
        pcp,
        pc_col,
        turnover,
        turnover_numeric,
        time,
        timestamp,
    } = p;
    let pid = match pid {
        Some(x) => x,
        None => {
            return Err(DecodeError::InvalidJson);
        },
    };
    let last_numeric = match last_numeric {
        Some(x) => x,
        None => {
            return Err(DecodeError::InvalidJson);
        },
    };
    let last = match last {
        Some(x) => x,
        None => {
            return Err(DecodeError::InvalidJson);
        },
    };
    let bid = match bid {
        Some(x) => x,
        None => {
            return Err(DecodeError::InvalidJson);
        },
    };
    let ask = match ask {
        Some(x) => x,
        None => {
            return Err(DecodeError::InvalidJson);
        },
    };
    let high = match high {
        Some(x) => x,
        None => {
            return Err(DecodeError::InvalidJson);
        },
    };
    let low = match low {
        Some(x) => x,
        None => {
            return Err(DecodeError::InvalidJson);
        },
    };
    let pc = match pc {
        Some(x) => x,
        None => {
            return Err(DecodeError::InvalidJson);
        },
    };
    let pcp = match pcp {
        Some(x) => x,
        None => {
            return Err(DecodeError::InvalidJson);
        },
    };
    let pc_col = match pc_col {
        Some(x) => x,
        None => {
            return Err(DecodeError::InvalidJson);
        },
    };
    let time = match time {
        Some(x) => x,
        None => {
            return Err(DecodeError::InvalidJson);
        },
    };
    let timestamp = match timestamp {
        Some(x) => x,
        None => {
            return Err(DecodeError::InvalidJson);
        },
    };
    let last_close = match last_close {
        Some(x) => x,
        None => String::new(),
    };
    let turnover = match turnover {
        Some(x) => x,
        None => String::new(),
    };
    let turnover_numeric = match turnover_numeric {
        Some(x) => x,
        None => 0,
    };
    proof {
        assert(encode_utf8(Seq::<char>::empty()) =~= Seq::<u8>::empty());
    }
    let s = Snapshot {
        pid,
        last_dir,
        last_numeric,
        last,
        bid,
        ask,
        high,
        low,
        last_close,
        pc,
        pcp,
        pc_col,
        turnover,
        turnover_numeric,
        time,
        timestamp,
    };
    Ok(s)
}

/// The snapshot a stand-alone object text decodes to.
pub(crate) fn snapshot_of_object_bytes(u: &[u8]) -> (r: Result<Snapshot, DecodeError>)
    ensures
        match r {
            Ok(s) => spec_snapshot_json(u@) == Ok::<SnapshotM, DecodeError>(s@),
            Err(e) => spec_snapshot_json(u@) == Err::<SnapshotM, _>(e),
        },
{
    match parse_object(u) {
        Some(ms) => {
            match fold_members(&ms) {
                Ok(p) => finalize(p),
                Err(e) => Err(e),
            }
        },
        None => Err(DecodeError::InvalidJson),
    }
}

impl Snapshot {
    /// Decodes a stand-alone snapshot object text (the inner JSON form,
    /// already unescaped).
    pub fn from_json(src: &str) -> (r: Result<Snapshot, DecodeError>)
        ensures
            match r {
                Ok(s) => spec_snapshot_json(src.spec_bytes()) == Ok::<SnapshotM, DecodeError>(s@),
                Err(e) => spec_snapshot_json(src.spec_bytes()) == Err::<SnapshotM, _>(e),
            },
    {
        snapshot_of_object_bytes(src.as_bytes())
    }
}

} // verus!
