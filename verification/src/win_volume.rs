//! Windows: which physical drive a flash target names, and what to make of the attempts
//! to lock and dismount its volumes before a raw write.
use vstd::prelude::*;
use crate::num::{decimal, parse_u32, parse_unsigned, push_decimal};
use crate::text::{
    chars_of, copy_range, extend_str, find, first_occurrence, has_infix, occurs_at, string_of,
    to_lowercase, lower_case,
};

verus! {

/// How many times `FSCTL_LOCK_VOLUME` is tried on a volume before giving up on the lock.
pub const LOCK_ATTEMPTS: u32 = 12;

/// `s` with every `/` turned into `\`.
pub open spec fn backslashed(s: Seq<char>) -> Seq<char> {
    s.map_values(|c: char| if c == '/' { '\\' } else { c })
}

/// `s` without its trailing backslashes (`trim_end_matches('\\')`).
pub open spec fn trim_trailing_backslashes(s: Seq<char>) -> Seq<char>
    decreases s.len(),
{
    if s.len() > 0 && s.last() == '\\' {
        trim_trailing_backslashes(s.drop_last())
    } else {
        s
    }
}

/// The drive number a flash target names: what follows the first `physicaldrive` in the
/// lower-cased target (slashes read as backslashes), trailing backslashes dropped, read as
/// a `u32`.
pub open spec fn drive_number(target: Seq<char>) -> Option<nat> {
    let lower = backslashed(lower_case(target));
    let key = "physicaldrive"@;
    if has_infix(lower, key) {
        parse_unsigned(
            trim_trailing_backslashes(lower.skip(first_occurrence(lower, key) + key.len())),
            10,
            u32::MAX as nat,
        )
    } else {
        None
    }
}

/// `\\.\PhysicalDrive3` -> `3`; `None` for a target that is not a physical drive.
pub fn disk_number_from_target(target: &str) -> (res: Option<u32>)
    ensures
        match res {
            Some(n) => drive_number(target@) == Some(n as nat),
            None => drive_number(target@) is None,
        },
{
    let low = to_lowercase(target);
    let mut lower: Vec<char> = Vec::new();
    let mut i: usize = 0;
    while i < low.len()
        invariant
            i <= low.len(),
            lower@ == backslashed(low@.take(i as int)),
        decreases low.len() - i,
    {
        if low[i] == '/' {
            lower.push('\\');
        } else {
            lower.push(low[i]);
        }
        assert(lower@ =~= backslashed(low@.take(i + 1)));
        i = i + 1;
    }
    assert(low@.take(low.len() as int) == low@);
    let key = chars_of("physicaldrive");
    proof {
        reveal_strlit("physicaldrive");
    }
    match find(&lower, &key) {
        None => None,
        Some(idx) => {
            let mut end = lower.len();
            let start = idx + key.len();
            assert(lower@.skip(start as int) == lower@.subrange(start as int, end as int));
            while end > start && lower[end - 1] == '\\'
                invariant
                    start <= end <= lower.len(),
                    trim_trailing_backslashes(lower@.subrange(start as int, end as int))
                        == trim_trailing_backslashes(lower@.skip(start as int)),
                decreases end,
            {
                assert(lower@.subrange(start as int, end as int).drop_last() == lower@.subrange(
                    start as int,
                    end - 1,
                ));
                end = end - 1;
            }
            let digits = copy_range(&lower, start, end);
            parse_u32(&digits)
        },
    }
}

/// The raw-device path of physical drive `n`.
pub open spec fn physical_drive_path(n: u32) -> Seq<char> {
    "\\\\.\\PhysicalDrive"@ + decimal(n as nat)
}

/// `\\.\PhysicalDrive<n>`.
pub fn drive_path(n: u32) -> (res: String)
    ensures
        res@ == physical_drive_path(n),
{
    let mut out: Vec<char> = Vec::new();
    extend_str(&mut out, "\\\\.\\PhysicalDrive");
    push_decimal(&mut out, n as u64);
    string_of(&out)
}

proof fn lemma_reads_drive_number(prefix: Seq<char>, n: u32)
    requires
        prefix.len() == 17,
        crate::text::ascii_text(prefix),
        prefix.map_values(|c: char| crate::text::ascii_lower(c)) == "\\\\.\\physicaldrive"@,
    ensures
        drive_number(prefix + decimal(n as nat)) == Some(n as nat),
{
    reveal_strlit("\\\\.\\physicaldrive");
    let d = decimal(n as nat);
    crate::num::lemma_decimal_digits(n as nat);
    crate::num::lemma_parse_decimal(n as nat, u32::MAX as nat);
    let t = prefix + d;
    let key = "physicaldrive"@;
    reveal_strlit("physicaldrive");
    let want = "\\\\.\\physicaldrive"@ + d;
    assert(crate::text::ascii_text(t)) by {
        assert forall|i: int| 0 <= i < t.len() implies (t[i] as u32) < 0x80 by {
            if i >= 17 {
                assert(t[i] == d[i - 17]);
                assert(0x30 <= (d[i - 17] as u32) <= 0x39);
            }
        }
    }
    let low = lower_case(t);
    assert(low =~= want) by {
        assert forall|i: int| 0 <= i < t.len() implies low[i] == want[i] by {
            if i < 17 {
                assert(prefix.map_values(|c: char| crate::text::ascii_lower(c))[i] == want[i]);
            } else {
                assert(t[i] == d[i - 17]);
                assert(0x30 <= (d[i - 17] as u32) <= 0x39);
            }
        }
    }
    assert(backslashed(want) =~= want) by {
        assert forall|i: int| 0 <= i < want.len() implies backslashed(want)[i] == want[i] by {
            if i >= 17 {
                assert(0x30 <= (d[i - 17] as u32) <= 0x39);
            }
        }
    }
    assert(want.subrange(4, 17) =~= key);
    assert(occurs_at(want, key, 4));
    assert forall|j: int| 0 <= j < 4 implies !occurs_at(want, key, j) by {
        if occurs_at(want, key, j) {
            assert(want.subrange(j, j + 13)[0] == key[0]);
        }
    }
    assert(has_infix(want, key)) by {
        assert(want.subrange(4, 4 + key.len() as int) == key);
    }
    let f = first_occurrence(want, key);
    assert(f == 4) by {
        assert(occurs_at(want, key, 4) && forall|j: int| 0 <= j < 4 ==> !occurs_at(want, key, j));
        if f < 4 {
            assert(!occurs_at(want, key, f));
        } else if f > 4 {
            assert(!occurs_at(want, key, 4));
        }
    }
    assert(want.skip(17) =~= d);
    assert(trim_trailing_backslashes(d) == d) by {
        assert(0x30 <= (d[d.len() - 1] as u32) <= 0x39);
    }
}

/// A drive's number reads back out of its raw-device path, whatever the case of the
/// `PhysicalDrive` part: `\\.\PhysicalDrive<n>` and `\\.\PHYSICALDRIVE<n>` both give `n`.
pub proof fn lemma_drive_path_round_trip(n: u32)
    ensures
        drive_number(physical_drive_path(n)) == Some(n as nat),
        drive_number("\\\\.\\PHYSICALDRIVE"@ + decimal(n as nat)) == Some(n as nat),
{
    reveal_strlit("\\\\.\\PhysicalDrive");
    reveal_strlit("\\\\.\\PHYSICALDRIVE");
    reveal_strlit("\\\\.\\physicaldrive");
    let p1 = "\\\\.\\PhysicalDrive"@;
    let p2 = "\\\\.\\PHYSICALDRIVE"@;
    assert(p1.map_values(|c: char| crate::text::ascii_lower(c)) =~= "\\\\.\\physicaldrive"@);
    assert(p2.map_values(|c: char| crate::text::ascii_lower(c)) =~= "\\\\.\\physicaldrive"@);
    lemma_reads_drive_number(p1, n);
    lemma_reads_drive_number(p2, n);
}

/// A volume GUID path as `FindFirstVolumeW` yields it, without its trailing backslashes.
pub fn volume_path(name: &str) -> (res: String)
    ensures
        res@ == trim_trailing_backslashes(name@),
{
    let cs = chars_of(name);
    let mut end = cs.len();
    assert(cs@.subrange(0, end as int) == cs@);
    while end > 0 && cs[end - 1] == '\\'
        invariant
            end <= cs.len(),
            trim_trailing_backslashes(cs@.subrange(0, end as int)) == trim_trailing_backslashes(
                cs@,
            ),
        decreases end,
    {
        assert(cs@.subrange(0, end as int).drop_last() == cs@.subrange(0, end - 1));
        end = end - 1;
    }
    string_of(&copy_range(&cs, 0, end))
}

/// Where locking one volume stands: how many `FSCTL_LOCK_VOLUME` attempts were made,
/// whether one succeeded, and the error of the last one that failed.
pub struct VolumeLock {
    pub attempts: u32,
    pub locked: bool,
    pub last_error: String,
}

/// What to do next for a volume being locked.
pub enum VolumeStep {
    /// Pause, then try the lock again.
    LockAgain,
    /// Stop trying and dismount the volume, locked or not.
    Dismount,
}

/// A volume on which no lock attempt was made yet.
pub fn volume_lock() -> (res: VolumeLock)
    ensures
        res.attempts == 0,
        !res.locked,
        res.last_error@ == Seq::<char>::empty(),
{
    VolumeLock { attempts: 0, locked: false, last_error: String::new() }
}

/// Records how one lock attempt went and says what follows. The lock is tried until its
/// first success, at most [`LOCK_ATTEMPTS`] times, with a pause before each retry; the
/// volume is then dismounted once, whether or not it was locked (a dismount still tears
/// the mounted filesystem down).
pub fn record_lock_attempt(state: &mut VolumeLock, attempt: Result<(), String>) -> (next: VolumeStep)
    requires
        !old(state).locked,
        old(state).attempts < LOCK_ATTEMPTS,
    ensures
        final(state).attempts == old(state).attempts + 1,
        match attempt {
            Ok(()) => final(state).locked && next is Dismount && final(state).last_error
                == old(state).last_error,
            Err(e) => !final(state).locked && final(state).last_error == e && (final(state).attempts
                < LOCK_ATTEMPTS ==> next is LockAgain) && (final(state).attempts == LOCK_ATTEMPTS
                ==> next is Dismount),
        },
{
    state.attempts = state.attempts + 1;
    match attempt {
        Ok(()) => {
            state.locked = true;
            VolumeStep::Dismount
        },
        Err(e) => {
            state.last_error = e;
            if state.attempts < LOCK_ATTEMPTS {
                VolumeStep::LockAgain
            } else {
                VolumeStep::Dismount
            }
        },
    }
}

/// The diagnostic for a volume that was dismounted although no lock came through; `None`
/// when it was locked or the dismount failed.
pub fn unlocked_warning(state: &VolumeLock, volume: &str, dismounted: &Result<(), String>) -> (res:
    Option<String>)
    ensures
        res is Some <==> (!state.locked && dismounted is Ok),
        res matches Some(m) ==> m@ == volume@ + ": dismounted but could not be locked ("@
            + state.last_error@ + ")"@,
{
    if state.locked || dismounted.is_err() {
        return None;
    }
    let mut msg: Vec<char> = Vec::new();
    extend_str(&mut msg, volume);
    extend_str(&mut msg, ": dismounted but could not be locked (");
    extend_str(&mut msg, state.last_error.as_str());
    extend_str(&mut msg, ")");
    Some(string_of(&msg))
}

/// What releasing one volume amounts to, given whether any lock attempt succeeded and how
/// the dismount went: a failed dismount fails the flash; a volume that was dismounted but
/// never locked is let through.
pub open spec fn release_result(volume: Seq<char>, dismounted: Result<(), String>) -> Result<
    (),
    Seq<char>,
> {
    match dismounted {
        Ok(()) => Ok(()),
        Err(e) => Err(
            "Windows would not release "@ + volume
                + " (on the robot's storage): "@ + e@
                + ". Close any window browsing that drive and try again."@,
        ),
    }
}

/// Decides the outcome of locking and dismounting one volume.
pub fn lock_and_dismount(volume: &str, dismounted: Result<(), String>) -> (res: Result<(), String>)
    ensures
        match res {
            Ok(()) => release_result(volume@, dismounted) == Ok::<(), Seq<char>>(()),
            Err(e) => release_result(volume@, dismounted) == Err::<(), Seq<char>>(e@),
        },
{
    match dismounted {
        Ok(()) => Ok(()),
        Err(e) => {
            let mut msg: Vec<char> = Vec::new();
            extend_str(&mut msg, "Windows would not release ");
            extend_str(&mut msg, volume);
            extend_str(&mut msg, " (on the robot's storage): ");
            extend_str(&mut msg, e.as_str());
            extend_str(&mut msg, ". Close any window browsing that drive and try again.");
            Err(string_of(&msg))
        },
    }
}

/// A path as Win32 wide-character APIs take it: its UTF-16 code units, then a 0.
pub fn wide(s: &str) -> (res: Vec<u16>)
    ensures
        res@ == crate::win_ps::utf16(s@).push(0u16),
{
    let mut units = crate::win_ps::encode_utf16(&chars_of(s));
    units.push(0);
    units
}

} // verus!
