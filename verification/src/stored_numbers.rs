//! Numbers as database columns hold them.

use vstd::prelude::*;
use vstd::string::*;

verus! {

/// The largest number that a signed 64-bit column holds.
pub const MAX_STORED: u64 = 0x7fff_ffff_ffff_ffff;

/// A number as a database integer, which holds no more than 63 bits.
pub fn as_i64(value: u64) -> (r: Result<i64, &'static str>)
    ensures
        if value <= MAX_STORED {
            r is Ok && r->Ok_0 as int == value as int
        } else {
            r is Err && r->Err_0@ == "value exceeds database integer range"@
        },
{
    if value <= MAX_STORED {
        Ok(value as i64)
    } else {
        Err("value exceeds database integer range")
    }
}

/// A database integer that must not be negative.
pub fn nonnegative_u64(value: i64, label: &str) -> (r: Result<u64, String>)
    ensures
        if value >= 0 {
            r is Ok && r->Ok_0 as int == value as int
        } else {
            r is Err && r->Err_0@ == label@ + " must not be negative"@
        },
{
    if value >= 0 {
        Ok(value as u64)
    } else {
        let mut out = label.to_owned();
        out.append(" must not be negative");
        Err(out)
    }
}

/// A database integer that must be positive.
pub fn positive_u64(value: i64, label: &str) -> (r: Result<u64, String>)
    ensures
        if value > 0 {
            r is Ok && r->Ok_0 as int == value as int
        } else {
            r is Err && r->Err_0@ == label@ + " must be positive"@
        },
{
    if value > 0 {
        Ok(value as u64)
    } else {
        let mut out = label.to_owned();
        out.append(" must be positive");
        Err(out)
    }
}

/// A stored progress in percent.
pub fn progress_u8(value: i32) -> (r: Result<u8, &'static str>)
    ensures
        if 0 <= value <= 100 {
            r is Ok && r->Ok_0 as int == value as int
        } else {
            r is Err && r->Err_0@ == "Fleet sync progress is invalid"@
        },
{
    if 0 <= value && value <= 100 {
        Ok(value as u8)
    } else {
        Err("Fleet sync progress is invalid")
    }
}

/// Numbers are stored and read back without change, where they fit.
pub proof fn law_stored_numbers_are_kept(
    value: u64,
    stored: Result<i64, &'static str>,
    label: &str,
    read: Result<u64, String>,
    positive: Result<u64, String>,
)
    requires
        call_ensures(as_i64, (value,), stored),
        stored is Ok ==> call_ensures(nonnegative_u64, (stored->Ok_0, label), read)
            && call_ensures(positive_u64, (stored->Ok_0, label), positive),
    ensures
        stored is Ok <==> value <= 0x7fff_ffff_ffff_ffff,
        stored is Ok ==> read is Ok && read->Ok_0 == value,
        stored is Ok ==> (positive is Ok <==> value > 0),
        stored is Ok && value > 0 ==> positive->Ok_0 == value,
{
}

/// A negative number is no stored count, and neither negative nor zero is a positive
/// one; progress lies between 0 and 100.
pub proof fn law_stored_numbers_have_bounds(
    value: i64,
    label: &str,
    read: Result<u64, String>,
    positive: Result<u64, String>,
    percent: i32,
    progress: Result<u8, &'static str>,
)
    requires
        call_ensures(nonnegative_u64, (value, label), read),
        call_ensures(positive_u64, (value, label), positive),
        call_ensures(progress_u8, (percent,), progress),
    ensures
        read is Ok <==> value >= 0,
        positive is Ok <==> value >= 1,
        read is Err ==> read->Err_0@ == label@ + " must not be negative"@,
        positive is Err ==> positive->Err_0@ == label@ + " must be positive"@,
        progress is Ok <==> 0 <= percent <= 100,
        progress is Ok ==> progress->Ok_0 == percent,
{
}

} // verus!
