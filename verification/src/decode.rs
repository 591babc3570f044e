//! The frame decoder: locating the escaped snapshot object inside a wire
//! envelope, unescaping it, and decoding it.

use vstd::prelude::*;
use vstd::string::StringSliceAdditionalSpecFns;
use crate::snapshot::{snapshot_of_object_bytes, spec_snapshot_json, DecodeError, Snapshot, SnapshotM};
use crate::wire::{find_from, lemma_find_from, spec_find_from, spec_strip, strip_escapes};

verus! {

/// The delimiter `::{` that opens the embedded snapshot object.
pub open spec fn delim() -> Seq<u8> {
    seq![58u8, 58u8, 123u8]
}

/// The closing brace `}`.
pub open spec fn rbrace() -> Seq<u8> {
    seq![125u8]
}

/// What a raw wire frame decodes to: the bytes from the first `::{` (keeping
/// its brace) through the first `}` after it are unescaped and read as a
/// snapshot object; a frame without those delimiters is a malformed envelope.
pub open spec fn spec_decode(s: Seq<u8>) -> Result<SnapshotM, DecodeError> {
    match spec_find_from(s, delim(), 0) {
        None => Err(DecodeError::MalformedEnvelope),
        Some(p) => match spec_find_from(s, rbrace(), p + 3) {
            None => Err(DecodeError::MalformedEnvelope),
            Some(q) => spec_snapshot_json(spec_strip(s.subrange(p + 2, q + 1))),
        },
    }
}

/// Decodes one raw wire frame given as bytes.
pub fn decode_frame_bytes(s: &[u8]) -> (r: Result<Snapshot, DecodeError>)
    ensures
        match r {
            Ok(snap) => spec_decode(s@) == Ok::<SnapshotM, DecodeError>(snap@),
            Err(e) => spec_decode(s@) == Err::<SnapshotM, DecodeError>(e),
        },
{
    let n = s.len();
    let mut dl: Vec<u8> = Vec::new();
    dl.push(58);
    dl.push(58);
    dl.push(123);
    proof {
        assert(dl@ =~= delim());
    }
    let p = match find_from(s, dl.as_slice(), 0) {
        Some(p) => p,
        None => {
            return Err(DecodeError::MalformedEnvelope);
        },
    };
    proof {
        lemma_find_from(s@, delim(), 0);
    }
    let mut rb: Vec<u8> = Vec::new();
    rb.push(125);
    proof {
        assert(rb@ =~= rbrace());
    }
    let q = match find_from(s, rb.as_slice(), p + 3) {
        Some(q) => q,
        None => {
            return Err(DecodeError::MalformedEnvelope);
        },
    };
    proof {
        lemma_find_from(s@, rbrace(), p + 3);
    }
    let u = strip_escapes(s, p + 2, q + 1);
    snapshot_of_object_bytes(u.as_slice())
}

impl Snapshot {
    /// Decodes one raw wire frame from the streaming server.
    pub fn from_str(src: &str) -> (r: Result<Snapshot, DecodeError>)
        ensures
            match r {
                Ok(snap) => spec_decode(src.spec_bytes()) == Ok::<SnapshotM, DecodeError>(snap@),
                Err(e) => spec_decode(src.spec_bytes()) == Err::<SnapshotM, DecodeError>(e),
            },
    {
        decode_frame_bytes(src.as_bytes())
    }
}

} // verus!
