use calendar_display::dates::{
    date_to_mins, day_name, days_since, get_time, weekday_wrapping_add, CivilDate, LocalTime, Weekday,
};
use calendar_display::labels::{footer_label, hour_label, sync_label, time_range_label, wrap_title};

#[test]
fn hour_labels_have_two_digits() {
    assert_eq!(hour_label(7), "07:00");
    assert_eq!(hour_label(0), "00:00");
    assert_eq!(hour_label(23), "23:00");
}

#[test]
fn sync_stamp() {
    assert_eq!(sync_label(LocalTime { hour: 9, minute: 5 }), "Sync: 09:05");
    assert_eq!(sync_label(LocalTime { hour: 18, minute: 45 }), "Sync: 18:45");
}

#[test]
fn event_time_span() {
    let s = time_range_label(LocalTime { hour: 8, minute: 10 }, LocalTime { hour: 8, minute: 50 });
    assert_eq!(s, "08:10-08:50");
    assert_eq!(s.len(), 11);
}

#[test]
fn build_stamp() {
    assert_eq!(footer_label("abc12345", false), "commit: abc12345");
    assert_eq!(footer_label("abc1234", true), "commit: abc1234*");
    assert_eq!(footer_label("emulator", false), "commit: emulator");
}

#[test]
fn short_title_unchanged() {
    assert_eq!(wrap_title("Short", true, 10), "Short");
    assert_eq!(wrap_title("Breakfast", false, 50), "Breakfast");
}

#[test]
fn long_one_line_title_is_cut() {
    assert_eq!(
        wrap_title("Very very very long event name", true, 10),
        "Very very very long event nam..."
    );
}

#[test]
fn multi_line_title_breaks_at_spaces() {
    assert_eq!(
        wrap_title("Web alkalmazás fejlesztés csoportmunkában", false, 60),
        "Web alkalmazás\nfejlesztés\nc..."
    );
    assert_eq!(wrap_title("Very long name but short", false, 40), "Very long\nname but...");
}

#[test]
fn title_with_too_few_lines_is_cut_at_first_break() {
    assert_eq!(
        wrap_title("Web alkalmazás fejlesztés csoportmunkában", false, 30),
        "Web alkalmazás..."
    );
}

#[test]
fn titles_fit_their_box() {
    for text in [
        "Very very very long event name",
        "Web alkalmazás fejlesztés csoportmunkában",
        "ééééééééééééééééééééééééééééééééééééé",
        "",
    ] {
        for (oneline, height) in [(true, 0), (false, 40), (false, 200)] {
            assert!(wrap_title(text, oneline, height).len() <= 32);
        }
    }
    assert_eq!(wrap_title("", true, 0), "");
}

#[test]
fn minutes_of_day() {
    assert_eq!(date_to_mins(LocalTime { hour: 0, minute: 0 }), 0);
    assert_eq!(date_to_mins(LocalTime { hour: 6, minute: 32 }), 392);
    assert_eq!(date_to_mins(LocalTime { hour: 23, minute: 59 }), 1439);
}

#[test]
fn days_between_dates() {
    let a = CivilDate { year: 2026, month: 7, day: 11 };
    let b = CivilDate { year: 2026, month: 7, day: 1 };
    assert_eq!(days_since(a, b), 10);
    assert_eq!(days_since(b, a), -10);
    assert_eq!(days_since(a, a), 0);
    let leap_end = CivilDate { year: 2024, month: 3, day: 1 };
    let feb = CivilDate { year: 2024, month: 2, day: 28 };
    assert_eq!(days_since(leap_end, feb), 2);
    let epoch = CivilDate { year: 1970, month: 1, day: 1 };
    assert_eq!(days_since(CivilDate { year: 2000, month: 1, day: 1 }, epoch), 10957);
}

#[test]
fn clock_from_timestamp_at_utc_plus_two() {
    let t = get_time(0);
    assert_eq!(t.date, CivilDate { year: 1970, month: 1, day: 1 });
    assert_eq!(t.time, LocalTime { hour: 2, minute: 0 });
    let t = get_time(22 * 3600 * 1_000_000);
    assert_eq!(t.date, CivilDate { year: 1970, month: 1, day: 2 });
    assert_eq!(t.time, LocalTime { hour: 0, minute: 0 });
    let t = get_time(-1);
    assert_eq!(t.date, CivilDate { year: 1970, month: 1, day: 1 });
    assert_eq!(t.time, LocalTime { hour: 1, minute: 59 });
}

#[test]
fn weekdays_wrap_around() {
    assert_eq!(weekday_wrapping_add(Weekday::Saturday, 2), Weekday::Monday);
    assert_eq!(weekday_wrapping_add(Weekday::Monday, 0), Weekday::Monday);
    assert_eq!(weekday_wrapping_add(Weekday::Sunday, 7), Weekday::Sunday);
    assert_eq!(day_name(Weekday::Wednesday), "Wednesday");
}
