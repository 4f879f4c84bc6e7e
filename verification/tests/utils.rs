use std::time::{Duration, SystemTime, UNIX_EPOCH};

use sweepy::error::SweepyError;
use sweepy::units;
use sweepy::utils::{
    self, days_since_at, epoch_secs_to_unix, get_days_since, is_long_untouched,
    is_valid_dir_name, system_time_to_unix_secs,
};
use sweepy::validation;

#[test]
fn converts_bytes_to_mebibytes() {
    for b in [0u64, 1, 1_048_575, 1_048_576, 3 * 1_048_576 + 7, u64::MAX] {
        assert_eq!(utils::bytes_to_mb(b), b / 1_048_576);
        assert_eq!(units::bytes_to_mb(b), utils::bytes_to_mb(b));
    }
    assert_eq!(utils::bytes_to_mb(358_612_992), 342);
}

#[test]
fn validates_the_workspace_path() {
    assert!(utils::validate_workspace_path(b"/w", true, true).is_ok());
    let e = utils::validate_workspace_path(b"/nope", false, false).unwrap_err();
    assert!(matches!(&e, SweepyError::PathDoesNotExist { path } if path == b"/nope"));
    assert_eq!(e.message(), "Path does not exists: /nope");
    let e = utils::validate_workspace_path(b"/w/file", true, false).unwrap_err();
    assert!(matches!(&e, SweepyError::PathNotDirectory { path } if path == b"/w/file"));
    assert_eq!(e.message(), "Path is not a directory: /w/file");
    let e = utils::validate_workspace_path(b"/w/caf\xe9", false, false).unwrap_err();
    assert!(matches!(&e, SweepyError::PathDoesNotExist { path } if path == b"/w/caf\xe9"));
    assert_eq!(e.message(), "Path does not exists: /w/caf\u{fffd}");
    assert!(validation::validate_workspace_path(b"/w", true, true).is_ok());
    assert!(matches!(
        validation::validate_workspace_path(b"/x", false, true).unwrap_err(),
        SweepyError::PathDoesNotExist { .. }
    ));
    assert!(matches!(
        validation::validate_workspace_path(b"/x", true, false).unwrap_err(),
        SweepyError::PathNotDirectory { .. }
    ));
}

#[test]
fn converts_system_time_to_unix_seconds() {
    assert_eq!(system_time_to_unix_secs(UNIX_EPOCH), Some(0));
    assert_eq!(system_time_to_unix_secs(UNIX_EPOCH + Duration::from_millis(5_999)), Some(5));
    assert_eq!(system_time_to_unix_secs(UNIX_EPOCH - Duration::from_secs(1)), None);
    let now = SystemTime::now();
    let expected = now.duration_since(UNIX_EPOCH).unwrap().as_secs() as i64;
    assert_eq!(system_time_to_unix_secs(now), Some(expected));
    assert_eq!(epoch_secs_to_unix(Some(i64::MAX as u64)), Some(i64::MAX));
    assert_eq!(epoch_secs_to_unix(Some(i64::MAX as u64 + 1)), None);
    assert_eq!(epoch_secs_to_unix(None), None);
}

#[test]
fn counts_whole_days() {
    assert_eq!(days_since_at(0, 3 * 86_400 + 5), 3);
    assert_eq!(days_since_at(100, 86_499), 0);
    assert_eq!(days_since_at(100, 86_500), 1);
    assert_eq!(days_since_at(500, 100), 0);
    assert_eq!(days_since_at(-86_400, 0), 1);
    let now = SystemTime::now().duration_since(UNIX_EPOCH).unwrap().as_secs() as i64;
    let d = get_days_since(now - 10 * 86_400);
    assert!(d == 10 || d == 11);
    assert_eq!(get_days_since(now + 1_000_000), 0);
}

#[test]
fn highlights_projects_untouched_over_180_days() {
    assert!(!is_long_untouched(180));
    assert!(is_long_untouched(181));
    assert!(!is_long_untouched(0));
}

#[test]
fn accepts_only_plain_directory_names() {
    for n in ["target", "node_modules", ".next", "zig-out", "_build", "A1"] {
        assert!(is_valid_dir_name(n), "{n}");
    }
    for n in ["", "a/b", "a b", "é", "x*", "..\\x"] {
        assert!(!is_valid_dir_name(n), "{n}");
    }
}

#[test]
fn unix_seconds_are_whole_seconds_since_the_epoch() {
    for secs in [0u64, 1, 59, 1_715_000_000, 1u64 << 40] {
        let t = UNIX_EPOCH + Duration::from_secs(secs) + Duration::from_nanos(999_999_999);
        assert_eq!(system_time_to_unix_secs(t), Some(secs as i64));
    }
}
