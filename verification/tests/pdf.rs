use wasabi::web::pdf::world::{resolve_file, today, total_seconds, FileCache, FileSource, Moment};

#[test]
fn files_are_resolved_by_their_prefix() {
    assert!(matches!(resolve_file("/data:json", false), Ok(FileSource::Data)));
    assert!(matches!(resolve_file("/qr:/hello/x", false), Ok(FileSource::Qr(s)) if s == "hello/x"));
    assert!(matches!(resolve_file("/ean:/4006381333931", true), Ok(FileSource::Ean(s)) if s == "4006381333931"));
    assert!(matches!(resolve_file("/https:/example.com/a.png", true), Ok(FileSource::Https(s)) if s == "https:/example.com/a.png"));
    assert!(matches!(resolve_file("/img/logo.svg", true), Ok(FileSource::Local(s)) if s == "img/logo.svg"));
    match resolve_file("/img/logo.svg", false) {
        Err(err) => assert_eq!(err, "cannot resolve path: /img/logo.svg"),
        Ok(_) => panic!("a file without a base directory"),
    }
}

#[test]
fn resolved_files_are_kept() {
    let mut cache: FileCache<u8> = FileCache::new();
    cache.keep("/a", Ok(1));
    cache.keep("/b", Err("no".to_string()));
    assert_eq!(cache.get("/a"), Some(&1));
    assert_eq!(cache.get("/b"), None);
}

#[test]
fn offsets_are_recombined() {
    assert_eq!(total_seconds(1, 2, 3, 4, 5), 604_800 + 172_800 + 10_800 + 240 + 5);
    assert_eq!(total_seconds(0, 0, -2, 0, 0), -7_200);
    assert_eq!(total_seconds(i64::MAX, 0, 0, 0, 0), i64::MAX);
    assert_eq!(total_seconds(i64::MIN, 0, 0, 0, -1), i64::MIN);
    assert_eq!(total_seconds(0, i64::MIN, i64::MAX, 0, 0), -1);
    for parts in [[3, -5, 7, 9, 11], [i64::MAX, i64::MIN, 1, -1, 0], [0, i64::MAX / 86_400, 9, 9, 9]] {
        let [weeks, days, hours, minutes, seconds] = parts;
        let expected = seconds
            .saturating_add(minutes.saturating_mul(60))
            .saturating_add(hours.saturating_mul(3600))
            .saturating_add(days.saturating_mul(86_400))
            .saturating_add(weeks.saturating_mul(604_800));
        assert_eq!(total_seconds(weeks, days, hours, minutes, seconds), expected);
    }
}

#[test]
fn the_date_is_shifted() {
    let local = Moment { year: 2001, month: 9, day: 9, hour: 3, minute: 46, second: 40 };
    let timestamp = 1_000_000_000;
    assert_eq!(today(timestamp, local, None), Some(local));
    assert_eq!(
        today(timestamp, local, Some((0, 0, 0, 0, 0))),
        Some(Moment { hour: 1, ..local })
    );
    assert_eq!(
        today(timestamp, local, Some((0, 0, -2, 0, 0))),
        Some(Moment { day: 8, hour: 23, ..local })
    );
    assert_eq!(
        today(timestamp, local, Some((52, 0, 0, 13, 20))),
        Some(Moment { year: 2002, month: 9, day: 8, hour: 2, minute: 0, second: 0 })
    );
    assert_eq!(today(timestamp, local, Some((i64::MAX, 0, 0, 0, 0))), None);
    assert_eq!(today(timestamp, local, Some((1_000_000_000, 0, 0, 0, 0))), None);
}

#[test]
fn the_calendar_has_ends() {
    let local = Moment { year: 2001, month: 9, day: 9, hour: 3, minute: 46, second: 40 };
    let last = 8_210_266_876_799;
    let first = -8_334_601_228_800;
    let end = Moment { year: 262_142, month: 12, day: 31, hour: 23, minute: 59, second: 59 };
    let start = Moment { year: -262_143, month: 1, day: 1, hour: 0, minute: 0, second: 0 };
    assert_eq!(today(last, local, Some((0, 0, 0, 0, 0))), Some(end));
    assert_eq!(today(last - 1, local, Some((0, 0, 0, 0, 1))), Some(end));
    assert_eq!(today(last, local, Some((0, 0, 0, 0, 1))), None);
    assert_eq!(today(last + 1, local, Some((0, 0, 0, 0, -1))), None);
    assert_eq!(today(first, local, Some((0, 0, 0, 0, 0))), Some(start));
    assert_eq!(today(first, local, Some((0, 0, 0, 0, last - first))), Some(end));
    assert_eq!(today(first, local, Some((0, 0, 0, 0, -1))), None);
    assert_eq!(today(first - 1, local, Some((0, 0, 0, 0, 1))), None);
    assert_eq!(today(i64::MIN, local, Some((0, 0, 0, 0, i64::MAX))), None);
    assert_eq!(today(0, local, Some((0, 0, 0, 0, i64::MIN))), None);
    assert_eq!(today(i64::MAX, local, None), Some(local));
}
