use std::time::{Duration, SystemTime};

use vstd::prelude::*;

use crate::error::{ErrorView, SweepyError};

verus! {

#[verifier::external_type_specification]
#[verifier::external_body]
pub struct ExSystemTime(SystemTime);

/// Seconds in a day.
pub open spec fn secs_per_day() -> int {
    86400int
}

/// Whole days in `secs` seconds.
pub open spec fn days_of(secs: int) -> int {
    secs / secs_per_day()
}

/// Whole days from `ts` to `now`, both in seconds since the Unix epoch; zero
/// when `ts` is not before `now`.
pub open spec fn days_between(ts: int, now: int) -> int {
    if now - ts > 0 {
        days_of(now - ts)
    } else {
        0
    }
}

/// What a workspace path check answers, given whether the path exists and
/// whether it is a directory.
pub open spec fn workspace_check(path: Seq<u8>, exists: bool, is_dir: bool) -> Option<ErrorView> {
    if !exists {
        Some(ErrorView::PathDoesNotExist(path))
    } else if !is_dir {
        Some(ErrorView::PathNotDirectory(path))
    } else {
        None
    }
}

/// Number of bytes in a mebibyte.
pub open spec fn bytes_per_mib() -> int {
    1048576int
}

/// Whole mebibytes in `bytes`, rounded down.
pub open spec fn mib_of(bytes: int) -> int {
    bytes / bytes_per_mib()
}

/// A character that may appear in the name of a directory to clear.
pub open spec fn is_dir_name_char(c: char) -> bool {
    ||| ('a' <= c && c <= 'z')
    ||| ('A' <= c && c <= 'Z')
    ||| ('0' <= c && c <= '9')
    ||| c == '.'
    ||| c == '_'
    ||| c == '-'
}

/// A directory name is valid when it is not empty and every character is an
/// ASCII letter or digit, `.`, `_` or `-`.
pub open spec fn valid_dir_name(name: Seq<char>) -> bool {
    &&& name.len() > 0
    &&& forall|i: int| 0 <= i < name.len() ==> #[trigger] is_dir_name_char(name[i])
}

/// `SystemTime::now`: the time of the system clock when it is called. Nothing
/// is stated of the value: it depends on the clock.
#[verifier::external_body]
pub(crate) fn current_time() -> SystemTime {
    SystemTime::now()
}

/// How long after the Unix epoch `t` lies, as
/// `SystemTime::duration_since(UNIX_EPOCH)` gives it; `None` where `t` lies
/// before the epoch.
pub uninterp spec fn epoch_duration(t: SystemTime) -> Option<Duration>;

/// The whole seconds of `d`, as `Duration::as_secs` gives them.
pub uninterp spec fn duration_secs(d: Duration) -> u64;

/// `SystemTime::duration_since(UNIX_EPOCH)`: how long after the Unix epoch `t`
/// lies, `None` where `t` lies before it. Stated: the result is
/// `epoch_duration` of `t`; a `SystemTime` is opaque here, so which duration
/// that is is left to the name.
#[verifier::external_body]
fn duration_since_epoch(t: &SystemTime) -> (r: Option<Duration>)
    ensures
        r == epoch_duration(*t),
{
    t.duration_since(SystemTime::UNIX_EPOCH).ok()
}

/// `Duration::as_secs`: the whole seconds of `d`. Stated: the result is
/// `duration_secs` of `d`; a `Duration` is opaque here, so which number that
/// is is left to the name.
#[verifier::external_body]
fn duration_whole_secs(d: &Duration) -> (r: u64)
    ensures
        r == duration_secs(*d),
{
    d.as_secs()
}

/// Checks that a workspace path, given by its bytes, exists and is a
/// directory; `exists` and `is_dir` are what the file system says of `path`.
pub fn validate_workspace_path(path: &[u8], exists: bool, is_dir: bool) -> (r: Result<(), SweepyError>)
    ensures
        match r {
            Ok(()) => workspace_check(path@, exists, is_dir) is None,
            Err(e) => workspace_check(path@, exists, is_dir) == Some(e@),
        },
{
    if !exists {
        return Err(SweepyError::PathDoesNotExist { path: vstd::slice::slice_to_vec(path) });
    }
    if !is_dir {
        return Err(SweepyError::PathNotDirectory { path: vstd::slice::slice_to_vec(path) });
    }
    Ok(())
}

/// Seconds since the Unix epoch as an `i64`, given the whole seconds since the
/// epoch; `None` where they do not fit.
pub fn epoch_secs_to_unix(secs: Option<u64>) -> (r: Option<i64>)
    ensures
        r == (match secs {
            Some(s) => if s <= i64::MAX {
                Some(s as i64)
            } else {
                None
            },
            None => None,
        }),
{
    match secs {
        Some(s) => if s <= 0x7fff_ffff_ffff_ffff {
            Some(s as i64)
        } else {
            None
        },
        None => None,
    }
}

/// Seconds from the Unix epoch to `t`; `None` where `t` lies before the epoch
/// or too far after it for an `i64`.
pub fn system_time_to_unix_secs(t: SystemTime) -> (r: Option<i64>)
    ensures
        r == (match epoch_duration(t) {
            Some(d) => if duration_secs(d) <= i64::MAX {
                Some(duration_secs(d) as i64)
            } else {
                None
            },
            None => None,
        }),
        r matches Some(v) ==> 0 <= v,
{
    let secs = match duration_since_epoch(&t) {
        Some(d) => Some(duration_whole_secs(&d)),
        None => None,
    };
    epoch_secs_to_unix(secs)
}

fn get_days_from_secs(secs: u64) -> (days: u64)
    ensures
        days == days_of(secs as int),
{
    secs / (60 * 60 * 24)
}

/// Whole days from the timestamp `ts` to `now`, both in seconds since the Unix
/// epoch; zero where `ts` is not before `now`.
pub fn days_since_at(ts: i64, now: i64) -> (days: u64)
    requires
        i64::MIN <= now - ts <= i64::MAX,
    ensures
        days == days_between(ts as int, now as int),
{
    let diff = now - ts;
    let elapsed: u64 = if diff > 0 {
        diff as u64
    } else {
        0
    };
    get_days_from_secs(elapsed)
}

/// Whole days from the timestamp `ts` to the present, read from the system
/// clock (taken as the epoch where the clock cannot be read).
pub fn get_days_since(ts: i64) -> (days: u64)
    requires
        0 <= ts,
    ensures
        exists|now: int| 0 <= now <= i64::MAX && days == days_between(ts as int, now),
{
    let now = match system_time_to_unix_secs(current_time()) {
        Some(v) => v,
        None => 0,
    };
    days_since_at(ts, now)
}

/// A character code that ASCII gives to a digit (48 to 57), an upper-case
/// letter (65 to 90), a lower-case letter (97 to 122), `-` (45), `.` (46) or
/// `_` (95).
pub open spec fn allowed_code(v: int) -> bool {
    ||| 48 <= v <= 57
    ||| 65 <= v <= 90
    ||| 97 <= v <= 122
    ||| v == 45
    ||| v == 46
    ||| v == 95
}

/// The characters allowed in a directory name are exactly the ASCII digits
/// (codes 48 to 57), upper-case letters (65 to 90) and lower-case letters
/// (97 to 122), and `-`, `.` and `_` (codes 45, 46 and 95); a name is valid
/// exactly when it is not empty and all its characters are allowed.
pub proof fn lemma_dir_name_chars_by_code(name: Seq<char>)
    ensures
        forall|c: char| #[trigger] is_dir_name_char(c) <==> allowed_code(c as int),
        valid_dir_name(name) <==> name.len() > 0 && forall|i: int|
            0 <= i < name.len() ==> allowed_code(#[trigger] name[i] as int),
{
    assert forall|c: char| #[trigger] is_dir_name_char(c) <==> allowed_code(c as int) by {
        let v = c as int;
        assert(('a' <= c && c <= 'z') <==> (97 <= v && v <= 122));
        assert(('A' <= c && c <= 'Z') <==> (65 <= v && v <= 90));
        assert(('0' <= c && c <= '9') <==> (48 <= v && v <= 57));
        assert((c == '.') <==> (v == 46));
        assert((c == '_') <==> (v == 95));
        assert((c == '-') <==> (v == 45));
    }
    if name.len() > 0 && forall|i: int| 0 <= i < name.len() ==> allowed_code(#[trigger] name[i] as int) {
        assert forall|i: int| 0 <= i < name.len() implies #[trigger] is_dir_name_char(name[i]) by {
            assert(allowed_code(name[i] as int));
        }
    }
    if valid_dir_name(name) {
        assert forall|i: int| 0 <= i < name.len() implies allowed_code(#[trigger] name[i] as int) by {
            assert(is_dir_name_char(name[i]));
        }
    }
}

pub fn bytes_to_mb(bytes: u64) -> (mb: u64)
    ensures
        mb == mib_of(bytes as int),
{
    bytes / (1024 * 1024)
}

pub fn is_valid_dir_name(name: &str) -> (valid: bool)
    ensures
        valid == valid_dir_name(name@),
{
    let n = name.unicode_len();
    if n == 0 {
        return false;
    }
    let mut i: usize = 0;
    while i < n
        invariant
            n == name@.len(),
            i <= n,
            forall|j: int| 0 <= j < i ==> #[trigger] is_dir_name_char(name@[j]),
        decreases n - i,
    {
        let c = name.get_char(i);
        let ok = ('a' <= c && c <= 'z') || ('A' <= c && c <= 'Z') || ('0' <= c && c <= '9')
            || c == '.' || c == '_' || c == '-';
        if !ok {
            assert(!is_dir_name_char(name@[i as int]));
            return false;
        }
        i = i + 1;
    }
    true
}

/// Projects untouched for more days than this are highlighted in a scan.
pub const HIGHLIGHT_AFTER_DAYS: u64 = 180;

/// Whether a project untouched for `days` days is highlighted in a scan.
pub fn is_long_untouched(days: u64) -> (r: bool)
    ensures
        r == (days > HIGHLIGHT_AFTER_DAYS),
{
    days > HIGHLIGHT_AFTER_DAYS
}

} // verus!
