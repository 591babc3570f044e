//! The outbound protocol frames and the inbound subscription key.

use vstd::prelude::*;
use vstd::string::{StringExecFns, StringSliceAdditionalSpecFns};
use vstd::utf8::encode_utf8;
use crate::wire::{contains_sub, spec_contains};

verus! {

/// The heartbeat period, in milliseconds.
pub const HEARTBEAT_MILLIS: u64 = 3200;

/// The subscribe frame for one instrument: names its id and the fixed region
/// tag.
pub open spec fn spec_subscribe_frame(pid: Seq<char>) -> Seq<char> {
    "[\"{\\\"_event\\\":\\\"bulk-subscribe\\\",\\\"tzID\\\":\\\"8\\\",\\\"message\\\":\\\"pid-"@
        + pid + ":\\\"}\"]"@
}

/// The identity frame, with the fixed placeholder identity.
pub open spec fn spec_identity_frame() -> Seq<char> {
    "[\"{\\\"_event\\\":\\\"UID\\\",\\\"UID\\\":0}\"]"@
}

/// The heartbeat frame.
pub open spec fn spec_heartbeat_frame() -> Seq<char> {
    "[\"{\\\"_event\\\":\\\"heartbeat\\\",\\\"data\\\":\\\"h\\\"}\"]"@
}

/// The substring that routes an inbound frame to one instrument.
pub open spec fn spec_subscription_key(pid: Seq<char>) -> Seq<char> {
    "pid-"@ + pid + "::{"@
}

pub fn subscribe_frame(pid: &str) -> (r: String)
    ensures
        r@ == spec_subscribe_frame(pid@),
{
    let mut s = String::from_str(
        "[\"{\\\"_event\\\":\\\"bulk-subscribe\\\",\\\"tzID\\\":\\\"8\\\",\\\"message\\\":\\\"pid-",
    );
    s.append(pid);
    s.append(":\\\"}\"]");
    s
}

pub fn identity_frame() -> (r: String)
    ensures
        r@ == spec_identity_frame(),
{
    String::from_str("[\"{\\\"_event\\\":\\\"UID\\\",\\\"UID\\\":0}\"]")
}

pub fn heartbeat_frame() -> (r: String)
    ensures
        r@ == spec_heartbeat_frame(),
{
    String::from_str("[\"{\\\"_event\\\":\\\"heartbeat\\\",\\\"data\\\":\\\"h\\\"}\"]")
}

pub fn subscription_key(pid: &str) -> (r: String)
    ensures
        r@ == spec_subscription_key(pid@),
{
    let mut s = String::from_str("pid-");
    s.append(pid);
    s.append("::{");
    s
}

/// Whether an inbound frame belongs to the subscribed instrument.
pub fn frame_matches(frame: &[u8], pid: &str) -> (r: bool)
    ensures
        r == spec_contains(frame@, encode_utf8(spec_subscription_key(pid@))),
{
    let key = subscription_key(pid);
    contains_sub(frame, key.as_str().as_bytes())
}

} // verus!
