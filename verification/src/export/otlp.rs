use vstd::prelude::*;

use std::time::SystemTime;

verus! {

#[verifier::external_type_specification]
#[verifier::external_body]
pub struct ExSystemTime(SystemTime);

/// Names the offset of a wall-clock time from the Unix epoch, as whole
/// seconds and the nanoseconds below one second; `None` for a time before
/// the epoch. It is a function of the time alone.
pub uninterp spec fn epoch_offset(t: SystemTime) -> Option<(u64, u32)>;

/// Calls `SystemTime::duration_since(SystemTime::UNIX_EPOCH)` and splits the
/// elapsed duration with `Duration::as_secs` and `Duration::subsec_nanos`
/// (the latter documented to stay below one second). The result is named by
/// `epoch_offset`.
#[verifier::external_body]
fn epoch_offset_of(t: SystemTime) -> (res: Option<(u64, u32)>)
    ensures
        res == epoch_offset(t),
        res matches Some(p) ==> p.1 < 1_000_000_000,
{
    match t.duration_since(SystemTime::UNIX_EPOCH) {
        Ok(d) => Some((d.as_secs(), d.subsec_nanos())),
        Err(_) => None,
    }
}

/// Nanoseconds since the epoch of an offset of `secs` seconds and `subsec`
/// nanoseconds, kept to its low 64 bits.
pub open spec fn nanos_of(secs: u64, subsec: u32) -> int {
    (secs * 1_000_000_000 + subsec) % 0x1_0000_0000_0000_0000
}

/// The nanosecond count `nanos_from_epoch_offset` gives for an offset, or 0 for none.
pub open spec fn offset_nanos(offset: Option<(u64, u32)>) -> int {
    match offset {
        Some(p) => nanos_of(p.0, p.1),
        None => 0,
    }
}

/// How the nanosecond count moves with the time: the epoch itself counts 0;
/// `d` more nanoseconds within the same second add exactly `d`, and one more
/// second adds exactly one billion (both modulo 2^64); below 2^64 the count
/// is the elapsed time in nanoseconds, so it grows with the time.
pub proof fn lemma_nanos_track_elapsed_time(secs: u64, subsec: u32, d: u32, secs2: u64, subsec2: u32)
    ensures
        offset_nanos(Some((0u64, 0u32))) == 0,
        subsec + d < 1_000_000_000 ==> offset_nanos(Some((secs, (subsec + d) as u32))) == (offset_nanos(
            Some((secs, subsec)),
        ) + d) % 0x1_0000_0000_0000_0000,
        secs + 1 <= u64::MAX ==> offset_nanos(Some(((secs + 1) as u64, subsec))) == (offset_nanos(
            Some((secs, subsec)),
        ) + 1_000_000_000) % 0x1_0000_0000_0000_0000,
        secs * 1_000_000_000 + subsec < 0x1_0000_0000_0000_0000 ==> offset_nanos(Some((secs, subsec)))
            == secs * 1_000_000_000 + subsec,
        ({
            let x = secs * 1_000_000_000 + subsec;
            let y = secs2 * 1_000_000_000 + subsec2;
            x <= y && y < 0x1_0000_0000_0000_0000 ==> offset_nanos(Some((secs, subsec))) <= offset_nanos(
                Some((secs2, subsec2)),
            )
        }),
{
    let m: int = 0x1_0000_0000_0000_0000;
    let x: int = secs * 1_000_000_000 + subsec;
    assert(x >= 0);
    vstd::arithmetic::div_mod::lemma_small_mod(0, m as nat);
    if subsec + d < 1_000_000_000 {
        vstd::arithmetic::div_mod::lemma_add_mod_noop(x, d as int, m);
        vstd::arithmetic::div_mod::lemma_small_mod(d as nat, m as nat);
        assert(offset_nanos(Some((secs, (subsec + d) as u32))) == (x + d) % m);
    }
    if secs + 1 <= u64::MAX {
        vstd::arithmetic::div_mod::lemma_add_mod_noop(x, 1_000_000_000, m);
        vstd::arithmetic::div_mod::lemma_small_mod(1_000_000_000, m as nat);
        assert(offset_nanos(Some(((secs + 1) as u64, subsec))) == (x + 1_000_000_000) % m);
    }
    if x < m {
        vstd::arithmetic::div_mod::lemma_small_mod(x as nat, m as nat);
    }
    let y: int = secs2 * 1_000_000_000 + subsec2;
    if x <= y && y < m {
        vstd::arithmetic::div_mod::lemma_small_mod(x as nat, m as nat);
        vstd::arithmetic::div_mod::lemma_small_mod(y as nat, m as nat);
    }
}

/// Nanoseconds since the Unix epoch for an offset from it, given as whole
/// seconds and the nanoseconds below a second (`None` for a time before the
/// epoch): the low 64 bits of the count, and 0 for `None`.
pub fn nanos_from_epoch_offset(offset: Option<(u64, u32)>) -> (res: u64)
    ensures
        res == offset_nanos(offset),
        offset matches Some(p) ==> res == (p.0 * 1_000_000_000 + p.1) % 0x1_0000_0000_0000_0000,
        offset is None ==> res == 0,
{
    match offset {
        Some((secs, subsec)) => {
            let total: u128 = (secs as u128) * 1_000_000_000 + (subsec as u128);
            let res = (total % 0x1_0000_0000_0000_0000u128) as u64;
            res
        },
        None => 0,
    }
}

/// A wall-clock time as nanoseconds since the Unix epoch (for OTLP
/// `time_unix_nano`): the low 64 bits of the count, and 0 for a time before
/// the epoch.
pub fn system_time_to_nanos(t: SystemTime) -> (res: u64)
    ensures
        res == offset_nanos(epoch_offset(t)),
        epoch_offset(t) matches Some(p) ==> res == (p.0 * 1_000_000_000 + p.1) % 0x1_0000_0000_0000_0000,
        epoch_offset(t) is None ==> res == 0,
{
    let offset = epoch_offset_of(t);
    nanos_from_epoch_offset(offset)
}

} // verus!
