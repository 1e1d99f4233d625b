use winfsp_fs_skeleton::translate::{
    attr, attributes_for, filetime_to_unix, unix_to_filetime, winpath_to_unix, FileAttr, NodeKind,
    Timestamp, FILETIME_EPOCH_OFFSET_SEC, FILETIME_TICKS_PER_SEC,
};

/// The epoch offset is the value every Windows timestamp
/// conversion rests on, so it is checked against its derivation
/// rather than restated.
///
/// 1601-01-01 to 1970-01-01 is 369 years. In the proleptic
/// Gregorian calendar that span contains 89 leap days: 369/4 = 92
/// four-year marks, minus 3 century years that are not leap (1700,
/// 1800, 1900) — 1600 and 2000 are leap but fall outside the span's
/// interior.
#[test]
fn the_filetime_epoch_offset_is_369_years_of_seconds() {
    let days = 369 * 365 + 89;
    assert_eq!(FILETIME_EPOCH_OFFSET_SEC, days as u64 * 86_400);
}

/// The Unix epoch itself maps to the offset, in ticks.
#[test]
fn the_unix_epoch_converts_to_the_offset() {
    assert_eq!(
        unix_to_filetime(0, 0),
        FILETIME_EPOCH_OFFSET_SEC * FILETIME_TICKS_PER_SEC
    );
}

/// A timestamp past 2106 does not fit in `u32` seconds; it must not be
/// truncated into a date in the past.
#[test]
fn a_timestamp_beyond_the_u32_range_survives() {
    // 2106-02-07T06:28:16Z — one second past u32::MAX seconds.
    let past_2106 = u32::MAX as u64 + 1;
    let got = unix_to_filetime(past_2106, 0);
    let at_u32_max = unix_to_filetime(u32::MAX as u64, 0);
    assert!(
        got > at_u32_max,
        "a timestamp past 2106 must be later than one at the u32 ceiling, \
         not wrapped: got {got}, u32 ceiling {at_u32_max}"
    );
}

/// Nanoseconds round down to FILETIME's 100-ns resolution.
#[test]
fn sub_second_precision_rounds_down_to_100ns() {
    let base = unix_to_filetime(1, 0);
    assert_eq!(unix_to_filetime(1, 99), base, "under 100 ns adds nothing");
    assert_eq!(unix_to_filetime(1, 100), base + 1);
    assert_eq!(unix_to_filetime(1, 199), base + 1, "rounds down, not up");
    assert_eq!(unix_to_filetime(1, 999_999_999), base + 9_999_999);
}

/// Saturating, not wrapping — a corrupt far-future timestamp must
/// not come back as 1601.
#[test]
fn an_absurd_timestamp_saturates_rather_than_wrapping() {
    assert_eq!(unix_to_filetime(u64::MAX, 0), u64::MAX);
}

#[test]
fn windows_paths_become_unix_paths() {
    assert_eq!(winpath_to_unix(""), "/", "the empty path is the root");
    assert_eq!(winpath_to_unix("\\"), "/");
    assert_eq!(winpath_to_unix("\\foo\\bar"), "/foo/bar");
    assert_eq!(winpath_to_unix("\\a b\\c.txt"), "/a b/c.txt");
}

#[test]
fn a_directory_is_marked_as_one() {
    let a = attributes_for(NodeKind::Dir, 0o755, false);
    assert_ne!(a & attr::DIRECTORY, 0);
    assert_eq!(a & attr::READONLY, 0, "0755 has write bits");
}

#[test]
fn a_file_with_no_write_bit_is_readonly() {
    assert_ne!(
        attributes_for(NodeKind::File, 0o444, false) & attr::READONLY,
        0
    );
    assert_eq!(
        attributes_for(NodeKind::File, 0o644, false) & attr::READONLY,
        0
    );
}

/// A directory is a directory whatever the mode happens to contain: identical
/// permission bits, different kinds, different answers.
#[test]
fn the_kind_decides_the_type_not_the_mode_bits() {
    let perms = 0o755; // no type nibble at all — the EROFS shape
    assert_ne!(
        attributes_for(NodeKind::Dir, perms, false) & attr::DIRECTORY,
        0,
        "a directory must be marked as one even when the mode has no type bits"
    );
    assert_eq!(
        attributes_for(NodeKind::File, perms, false) & attr::DIRECTORY,
        0
    );
    assert_ne!(
        attributes_for(NodeKind::Symlink, perms, false) & attr::REPARSE_POINT,
        0
    );
}

/// A time the filesystem does not record falls back to mtime
/// rather than being reported as 1970.
#[test]
fn an_absent_timestamp_falls_back_to_mtime() {
    let m = Timestamp {
        secs: 1_700_000_000,
        nsec: 0,
    };
    let a = FileAttr {
        kind: NodeKind::File,
        perms: 0o644,
        size: 0,
        inode: 1,
        link_count: 1,
        mtime: m,
        atime: None,
        ctime: None,
        crtime: None,
    };
    assert_eq!(a.atime_or_mtime(), m, "EROFS records only mtime");
    assert_eq!(a.ctime_or_mtime(), m);
    assert_eq!(a.crtime_or_mtime(), m);
}

/// The same through `Timestamp` as through `unix_to_filetime`.
#[test]
fn a_timestamp_past_2106_survives_the_wrapper_too() {
    let ceiling = Timestamp {
        secs: u32::MAX as i64,
        nsec: 0,
    }
    .to_filetime();
    let past = Timestamp {
        secs: u32::MAX as i64 + 1,
        nsec: 0,
    }
    .to_filetime();
    assert!(
        past > ceiling,
        "past 2106 must be later than the u32 ceiling, not wrapped"
    );
}

/// A pre-1970 timestamp is representable in FILETIME (which counts
/// from 1601), so it converts rather than clamping to the epoch.
#[test]
fn a_pre_1970_timestamp_converts_rather_than_clamping() {
    let epoch = Timestamp { secs: 0, nsec: 0 }.to_filetime();
    let before = Timestamp {
        secs: -86_400,
        nsec: 0,
    }
    .to_filetime();
    assert!(before < epoch, "1969 must be earlier than 1970");
    assert_eq!(before, epoch - 86_400 * FILETIME_TICKS_PER_SEC);
}

/// A read-only *volume* makes everything read-only, whatever the
/// mode says — Windows must not offer an edit that will fail.
#[test]
fn a_readonly_volume_overrides_a_writable_mode() {
    assert_ne!(
        attributes_for(NodeKind::File, 0o777, true) & attr::READONLY,
        0
    );
}

/// A symlink is a reparse point and **not** also a directory, even
/// when it points at one — WinFsp resolves it and asks again.
#[test]
fn a_symlink_is_a_reparse_point_and_not_a_directory() {
    let a = attributes_for(NodeKind::Symlink, 0o777, false);
    assert_ne!(a & attr::REPARSE_POINT, 0);
    assert_eq!(a & attr::DIRECTORY, 0);
}

/// `NORMAL` means "no other attributes", so it must never appear
/// alongside one.
#[test]
fn normal_is_never_combined_with_another_attribute() {
    for kind in [
        NodeKind::Dir,
        NodeKind::File,
        NodeKind::Symlink,
        NodeKind::Other,
    ] {
        for ro in [true, false] {
            let a = attributes_for(kind, 0o644, ro);
            if a & attr::NORMAL != 0 {
                assert_eq!(a, attr::NORMAL, "NORMAL must stand alone, got {a:#x}");
            }
        }
    }
}

#[test]
fn a_known_date_converts_exactly() {
    // 2023-11-14T22:13:20Z.
    assert_eq!(unix_to_filetime(1_700_000_000, 0), 133_444_736_000_000_000);
    assert_eq!(
        Timestamp { secs: 1_700_000_000, nsec: 123_456_789 }.to_filetime(),
        133_444_736_001_234_567
    );
}

#[test]
fn saturation_starts_where_ticks_run_out() {
    // u64::MAX ticks are 1844674407370 s and 9551615 ticks after 1601.
    let last = 1_844_674_407_370 - FILETIME_EPOCH_OFFSET_SEC;
    assert_eq!(unix_to_filetime(last, 955_161_500), u64::MAX);
    assert_eq!(unix_to_filetime(last, 955_161_499), u64::MAX - 1);
    assert_eq!(unix_to_filetime(last, 999_999_999), u64::MAX);
    assert_eq!(unix_to_filetime(last + 1, 0), u64::MAX);
    assert_eq!(Timestamp { secs: i64::MAX, nsec: 0 }.to_filetime(), u64::MAX);
}

#[test]
fn times_before_1601_count_as_1601() {
    let offset = FILETIME_EPOCH_OFFSET_SEC as i64;
    assert_eq!(Timestamp { secs: -offset, nsec: 0 }.to_filetime(), 0);
    assert_eq!(Timestamp { secs: -offset, nsec: 250 }.to_filetime(), 2);
    assert_eq!(Timestamp { secs: 1 - offset, nsec: 0 }.to_filetime(), 10_000_000);
    assert_eq!(Timestamp { secs: i64::MIN, nsec: 0 }.to_filetime(), 0);
    assert_eq!(Timestamp { secs: i64::MIN, nsec: 100 }.to_filetime(), 1);
}

#[test]
fn only_the_zero_filetime_has_no_unix_time() {
    assert_eq!(filetime_to_unix(0), None);
    assert_eq!(
        filetime_to_unix(1),
        Some(Timestamp { secs: -11_644_473_600, nsec: 100 })
    );
}

#[test]
fn a_filetime_before_1970_has_negative_seconds() {
    let day_before = (FILETIME_EPOCH_OFFSET_SEC - 86_400) * FILETIME_TICKS_PER_SEC;
    assert_eq!(
        filetime_to_unix(day_before),
        Some(Timestamp { secs: -86_400, nsec: 0 })
    );
}

#[test]
fn filetimes_survive_the_round_trip() {
    for ft in [1, 9_999_999, 10_000_000, 116_444_736_000_000_000, 133_444_736_001_234_567, u64::MAX] {
        assert_eq!(filetime_to_unix(ft).unwrap().to_filetime(), ft);
    }
    let t = Timestamp { secs: -5, nsec: 700 };
    assert_eq!(filetime_to_unix(t.to_filetime()), Some(t));
    let t = Timestamp { secs: u32::MAX as i64 + 1, nsec: 999_999_950 };
    assert_eq!(
        filetime_to_unix(t.to_filetime()),
        Some(Timestamp { secs: t.secs, nsec: 999_999_900 })
    );
}

#[test]
fn a_path_converts_once_and_for_all() {
    let once = winpath_to_unix("\\a\\b/c\\");
    assert_eq!(once, "/a/b/c/");
    assert_eq!(winpath_to_unix(&once), once);
    assert_eq!(winpath_to_unix("\\gr\u{fc}n\\\u{1f600}"), "/gr\u{fc}n/\u{1f600}");
}

#[test]
fn recorded_times_are_kept() {
    let at = |secs: i64| Timestamp { secs, nsec: 0 };
    let a = FileAttr {
        kind: NodeKind::File,
        perms: 0o644,
        size: 0,
        inode: 1,
        link_count: 1,
        mtime: at(1),
        atime: Some(at(2)),
        ctime: Some(at(3)),
        crtime: Some(at(4)),
    };
    assert_eq!(a.atime_or_mtime(), at(2));
    assert_eq!(a.ctime_or_mtime(), at(3));
    assert_eq!(a.crtime_or_mtime(), at(4));
}

#[test]
fn attribute_bitmaps_are_exact() {
    assert_eq!(attributes_for(NodeKind::Dir, 0o755, false), 0x10);
    assert_eq!(attributes_for(NodeKind::Dir, 0o555, false), 0x11);
    assert_eq!(attributes_for(NodeKind::Symlink, 0o777, false), 0x400);
    assert_eq!(attributes_for(NodeKind::Symlink, 0o777, true), 0x401);
    assert_eq!(attributes_for(NodeKind::File, 0o020, false), 0x20);
    assert_eq!(attributes_for(NodeKind::Other, 0, false), 0x21);
    assert_eq!(attr::NORMAL, 0x80);
}
