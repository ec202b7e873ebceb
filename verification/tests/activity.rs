use chrono::{DateTime, Datelike, TimeZone, Utc};
use cratepro::activity::{
    all_months_present, check_commit_last_three_month, commit_activity_at, commits_cover_months,
    month_of_timestamp,
    extract_months_from_timestamps, parse_timestamps, recent_months, recent_months_at, MonthSet,
    EARLIEST_TIMESTAMP, LATEST_TIMESTAMP, MONTHS_ALWAYS_COUNTABLE, MONTH_STEP_SECONDS,
};

#[test]
fn test_extract_months_from_timestamps() {
    let ts1 = Utc
        .with_ymd_and_hms(2025, 7, 1, 0, 0, 0)
        .unwrap()
        .timestamp();
    let ts2 = Utc
        .with_ymd_and_hms(2025, 6, 1, 0, 0, 0)
        .unwrap()
        .timestamp();
    let ts3 = Utc
        .with_ymd_and_hms(2025, 5, 1, 0, 0, 0)
        .unwrap()
        .timestamp();
    let timestamps = vec![ts1, ts2, ts3];

    let months = extract_months_from_timestamps(&timestamps);

    assert!(months.contains(&(2025, 7)));
    assert!(months.contains(&(2025, 6)));
    assert!(months.contains(&(2025, 5)));
    assert_eq!(months.len(), 3);
}

#[test]
fn test_all_months_present_true() {
    let target = vec![(2025, 5), (2025, 6), (2025, 7)];
    let seen = MonthSet::from_months(vec![(2025, 5), (2025, 6), (2025, 7)]);
    assert!(all_months_present(&target, &seen));
}

#[test]
fn test_all_months_present_false() {
    let target = vec![(2025, 5), (2025, 6), (2025, 7)];
    let seen = MonthSet::from_months(vec![(2025, 6), (2025, 7)]);
    assert!(!all_months_present(&target, &seen));
}

#[test]
fn calendar_range_matches_chrono() {
    assert!(DateTime::from_timestamp(EARLIEST_TIMESTAMP, 0).is_some());
    assert!(DateTime::from_timestamp(EARLIEST_TIMESTAMP - 1, 0).is_none());
    assert!(DateTime::from_timestamp(LATEST_TIMESTAMP, 0).is_some());
    assert!(DateTime::from_timestamp(LATEST_TIMESTAMP + 1, 0).is_none());
    let months = extract_months_from_timestamps(&[
        EARLIEST_TIMESTAMP - 1,
        EARLIEST_TIMESTAMP,
        LATEST_TIMESTAMP,
        LATEST_TIMESTAMP + 1,
        i64::MIN,
        i64::MAX,
    ]);
    assert_eq!(months.len(), 2);
    assert!(months.contains(&(-262143, 1)));
    assert!(months.contains(&(262142, 12)));
}

#[test]
fn extract_months_skips_duplicates_and_edges() {
    let jan_last = Utc.with_ymd_and_hms(2024, 1, 31, 23, 59, 59).unwrap().timestamp();
    let feb_first = jan_last + 1;
    let months = extract_months_from_timestamps(&[jan_last, jan_last - 100, feb_first, 0]);
    assert_eq!(months.len(), 3);
    assert!(months.contains(&(2024, 1)));
    assert!(months.contains(&(2024, 2)));
    assert!(months.contains(&(1970, 1)));
    assert!(!months.contains(&(2024, 3)));
    assert_eq!(extract_months_from_timestamps(&[]).len(), 0);
}

#[test]
fn month_set_insert_reports_novelty() {
    let mut s = MonthSet::new();
    assert!(s.insert((2025, 1)));
    assert!(!s.insert((2025, 1)));
    assert!(s.insert((2024, 1)));
    assert_eq!(s.len(), 2);
    let t = MonthSet::from_months(vec![(1, 1), (1, 1), (1, 2)]);
    assert_eq!(t.len(), 2);
}

#[test]
fn recent_months_step_back_thirty_days() {
    let now = Utc.with_ymd_and_hms(2025, 7, 15, 12, 0, 0).unwrap().timestamp();
    assert_eq!(recent_months_at(now, 3), vec![(2025, 7), (2025, 6), (2025, 5)]);
    let now = Utc.with_ymd_and_hms(2025, 3, 1, 0, 0, 0).unwrap().timestamp();
    // 30 days before March 1 is January 30: February is skipped.
    assert_eq!(recent_months_at(now, 2), vec![(2025, 3), (2025, 1)]);
    assert_eq!(recent_months_at(now, 0), Vec::<(i32, u32)>::new());
    assert_eq!(
        recent_months_at(EARLIEST_TIMESTAMP + MONTH_STEP_SECONDS, 2),
        vec![(-262143, 1), (-262143, 1)]
    );
}

#[test]
fn recent_months_starts_at_the_current_month() {
    let now = Utc::now();
    let months = recent_months(3).unwrap();
    assert_eq!(months.len(), 3);
    let expected = recent_months_at(now.timestamp(), 3);
    // The clock may have crossed a month boundary between the two reads; it
    // does not in practice.
    assert_eq!(months, expected);
    assert!(recent_months(0).unwrap().is_empty());
}

fn std_timestamps(s: &str) -> Vec<i64> {
    s.lines().filter_map(|l| l.trim().parse::<i64>().ok()).collect()
}

#[test]
fn parse_timestamps_agrees_with_std() {
    let samples = [
        "",
        "\n",
        "1751328000\n1748736000\n",
        "1751328000\r\n1748736000",
        "  42  \n\t-7\u{3000}\n+9\n",
        "12a\n-\n+\n--1\n+-1\n 1 2\n",
        "9223372036854775807\n9223372036854775808\n-9223372036854775808\n-9223372036854775809\n",
        "00012\n-0\n",
        "5\r",
        "5\r\r\n6\n\n\n7",
        "\u{85}8\u{a0}\n\u{2028}9\u{200b}\n",
        "١٢\n",
        "99999999999999999999999\n",
    ];
    for s in samples.iter() {
        assert_eq!(parse_timestamps(s), std_timestamps(s), "input {:?}", s);
    }
    assert_eq!(parse_timestamps("  42  \n\t-7\u{3000}\n+9\n"), vec![42, -7, 9]);
}

#[test]
fn commits_cover_months_needs_success_and_every_month() {
    let target = vec![(2025, 7), (2025, 6)];
    let july = Utc.with_ymd_and_hms(2025, 7, 3, 0, 0, 0).unwrap().timestamp();
    let june = Utc.with_ymd_and_hms(2025, 6, 3, 0, 0, 0).unwrap().timestamp();
    let log = format!("{}\n{}\n", july, june);
    assert!(commits_cover_months(&target, true, &log));
    assert!(!commits_cover_months(&target, false, &log));
    assert!(!commits_cover_months(&target, true, &format!("{}\n", july)));
    assert!(commits_cover_months(&[], true, ""));
}

#[test]
fn check_commit_last_three_month_on_current_log() {
    let now = Utc::now().timestamp();
    let log = format!(
        "{}\n{}\n{}\n",
        now,
        now - MONTH_STEP_SECONDS,
        now - 2 * MONTH_STEP_SECONDS
    );
    assert!(check_commit_last_three_month(true, &log));
    assert!(!check_commit_last_three_month(false, &log));
    assert!(!check_commit_last_three_month(true, &format!("{}\n", now)));
}

#[test]
fn rendered_log_reads_back() {
    let ts = vec![0i64, 7, 1751328000, i64::MAX];
    let log: String = ts.iter().map(|t| format!("{}\n", t)).collect();
    assert_eq!(parse_timestamps(&log), ts);
    assert_eq!(parse_timestamps(""), Vec::<i64>::new());
}

#[test]
fn months_of_a_joined_log_are_the_union() {
    let a = vec![0i64, 1751328000];
    let b = vec![1748736000i64, 0];
    let joined: Vec<i64> = a.iter().chain(b.iter()).cloned().collect();
    let both = extract_months_from_timestamps(&joined);
    let reversed: Vec<i64> = joined.iter().rev().cloned().collect();
    assert_eq!(both.len(), 3);
    assert_eq!(extract_months_from_timestamps(&reversed).len(), 3);
    for m in [(1970, 1), (2025, 7), (2025, 6)] {
        assert!(both.contains(&m));
    }
    let target = vec![(2025, 7)];
    let log_a: String = a.iter().map(|t| format!("{}\n", t)).collect();
    let log_ab: String = joined.iter().map(|t| format!("{}\n", t)).collect();
    assert!(commits_cover_months(&target, true, &log_a));
    assert!(commits_cover_months(&target, true, &log_ab));
}

fn leap_count(y: i64) -> i64 {
    y.div_euclid(4) - y.div_euclid(100) + y.div_euclid(400)
}

fn is_leap(y: i64) -> bool {
    y.rem_euclid(4) == 0 && (y.rem_euclid(100) != 0 || y.rem_euclid(400) == 0)
}

/// The first day (since 1970-01-01) of month number `k` (12 * year + month - 1),
/// as the library's calendar specification defines it.
fn first_day(k: i64) -> i64 {
    const BEFORE: [i64; 12] = [0, 31, 59, 90, 120, 151, 181, 212, 243, 273, 304, 334];
    let y = k.div_euclid(12);
    let m = k.rem_euclid(12) + 1;
    365 * (y - 1970) + leap_count(y - 1) - leap_count(1969) + BEFORE[(m - 1) as usize]
        + if m > 2 && is_leap(y) { 1 } else { 0 }
}

fn check_month_holds(ts: i64) {
    let dt = DateTime::from_timestamp(ts, 0).unwrap();
    let k = dt.year() as i64 * 12 + dt.month() as i64 - 1;
    assert!(first_day(k) * 86400 <= ts, "ts {}", ts);
    assert!(ts < first_day(k + 1) * 86400, "ts {}", ts);
}

#[test]
fn chrono_months_follow_the_gregorian_specification() {
    // Every month boundary from year -1000 to 3000, and the seconds around it.
    for k in (-1000i64 * 12)..(3000 * 12) {
        let start = first_day(k) * 86400;
        check_month_holds(start);
        check_month_holds(start - 1);
        check_month_holds(start + 12 * 3600);
    }
    // The ends of chrono's range and a spread of instants across it.
    check_month_holds(EARLIEST_TIMESTAMP);
    check_month_holds(LATEST_TIMESTAMP);
    let step = (LATEST_TIMESTAMP - EARLIEST_TIMESTAMP) / 200_003;
    let mut ts = EARLIEST_TIMESTAMP;
    while ts <= LATEST_TIMESTAMP {
        check_month_holds(ts);
        ts += step;
    }
}

#[test]
fn months_always_countable_from_the_epoch() {
    let n = MONTHS_ALWAYS_COUNTABLE as i64;
    assert!(0 - MONTH_STEP_SECONDS * (n - 1) >= EARLIEST_TIMESTAMP);
    assert!(0 - MONTH_STEP_SECONDS * n < EARLIEST_TIMESTAMP);
    let v = recent_months_at(0, MONTHS_ALWAYS_COUNTABLE);
    assert_eq!(v.len(), MONTHS_ALWAYS_COUNTABLE);
    assert_eq!(v[0], (1970, 1));
    assert_eq!(*v.last().unwrap(), (-262143, 1));
    for w in v.windows(2) {
        let a = w[0].0 as i64 * 12 + w[0].1 as i64;
        let b = w[1].0 as i64 * 12 + w[1].1 as i64;
        assert!(b <= a && a <= b + 2);
    }
}

#[test]
fn month_of_timestamp_reads_the_utc_month() {
    assert_eq!(month_of_timestamp(0), Some((1970, 1)));
    assert_eq!(month_of_timestamp(1751328000 - 1), Some((2025, 6)));
    assert_eq!(month_of_timestamp(1751328000), Some((2025, 7)));
    assert_eq!(month_of_timestamp(-1), Some((1969, 12)));
    assert_eq!(month_of_timestamp(EARLIEST_TIMESTAMP - 1), None);
    assert_eq!(month_of_timestamp(LATEST_TIMESTAMP + 1), None);
}

#[test]
fn commit_activity_at_a_fixed_time() {
    let now = Utc.with_ymd_and_hms(2025, 7, 15, 12, 0, 0).unwrap().timestamp();
    let jul = Utc.with_ymd_and_hms(2025, 7, 2, 0, 0, 0).unwrap().timestamp();
    let jun = Utc.with_ymd_and_hms(2025, 6, 20, 0, 0, 0).unwrap().timestamp();
    let may = Utc.with_ymd_and_hms(2025, 5, 31, 23, 0, 0).unwrap().timestamp();
    let log = format!("{}\n{}\n{}\n", jul, jun, may);
    assert!(commit_activity_at(now, true, &log));
    assert!(!commit_activity_at(now, false, &log));
    assert!(!commit_activity_at(now, true, &format!("{}\n{}\n", jul, may)));
    // More lines, in another order, keep the verdict.
    let more = format!("noise\n{}\n{}\n{}\n{}\n", may, 0, jun, jul);
    assert!(commit_activity_at(now, true, &more));
}
