use mhtml_posts::dates::{
    date_from_html, date_from_title, resolve_post_date, CaptureTime, PostDate, MAX_YEAR, MIN_YEAR,
};

fn ymd(year: i32, month: u32, day: u32) -> PostDate {
    PostDate { year, month, day }
}

fn noon_utc(date: PostDate) -> CaptureTime {
    CaptureTime { date, second_of_day: 43200, nanosecond: 0, offset_seconds: 0 }
}

#[test]
fn date_from_title_yy() {
    assert_eq!(date_from_title(b"7/19/23"), PostDate::from_ymd_opt(2023, 7, 19));
}

#[test]
fn date_from_title_yyyy() {
    assert_eq!(date_from_title(b"7/19/2023"), PostDate::from_ymd_opt(2023, 7, 19));
}

#[test]
fn date_from_html_missing() {
    assert_eq!(date_from_html(b""), None);
}

#[test]
fn date_from_html_pm() {
    assert_eq!(
        date_from_html(br#"<span class="zX2W9c">Jul 13, 2023, 7:31:18\u{202F}PM</span>"#),
        PostDate::from_ymd_opt(2023, 7, 13)
    );
}

#[test]
fn date_from_title_gives_the_fields() {
    assert_eq!(date_from_title(b"7/19/23"), Some(ymd(2023, 7, 19)));
    assert_eq!(date_from_title(b"Trip 12/31/1999 photos"), Some(ymd(1999, 12, 31)));
}

#[test]
fn date_from_title_two_digit_years_count_from_2000() {
    assert_eq!(date_from_title(b"1/2/00"), Some(ymd(2000, 1, 2)));
    assert_eq!(date_from_title(b"1/2/99"), Some(ymd(2099, 1, 2)));
    assert_eq!(date_from_title(b"1/2/100"), Some(ymd(100, 1, 2)));
    assert_eq!(date_from_title(b"1/2/5"), Some(ymd(2005, 1, 2)));
}

#[test]
fn date_from_title_takes_the_first_date() {
    assert_eq!(date_from_title(b"1/2 3/4/5 then 6/7/8"), Some(ymd(2005, 3, 4)));
    assert_eq!(date_from_title(b"12/3/4/5"), Some(ymd(2004, 12, 3)));
}

#[test]
fn date_from_title_without_a_date() {
    assert_eq!(date_from_title(b""), None);
    assert_eq!(date_from_title(b"no date here"), None);
    assert_eq!(date_from_title(b"7/19"), None);
    assert_eq!(date_from_title(b"7//19/23"), None);
    assert_eq!(date_from_title(b"7/19/"), None);
}

#[test]
fn date_from_title_rejects_days_the_calendar_lacks() {
    assert_eq!(date_from_title(b"2/30/2023"), None);
    assert_eq!(date_from_title(b"13/1/2023"), None);
    assert_eq!(date_from_title(b"0/1/2023"), None);
    assert_eq!(date_from_title(b"2/29/2023"), None);
    assert_eq!(date_from_title(b"2/29/2024"), Some(ymd(2024, 2, 29)));
}

#[test]
fn date_from_title_does_not_look_past_a_first_date_that_fails() {
    assert_eq!(date_from_title(b"13/1/2023 and 7/19/23"), None);
}

#[test]
fn date_from_title_with_numbers_too_large() {
    assert_eq!(date_from_title(b"99999999999999999999/1/2023"), None);
    assert_eq!(date_from_title(b"1/1/99999999999999999999"), None);
    assert_eq!(date_from_title(b"1/1/262142"), Some(ymd(262142, 1, 1)));
    assert_eq!(date_from_title(b"1/1/262143"), None);
    assert_eq!(date_from_title(b"0000000001/0000000002/0000002023"), Some(ymd(2023, 1, 2)));
}

#[test]
fn date_from_html_am_and_two_digit_hour() {
    assert_eq!(
        date_from_html(b"<p>x</p><span>Dec 1, 2021, 11:05:09 AM</span>"),
        Some(ymd(2021, 12, 1))
    );
    assert_eq!(
        date_from_html("<span>\n  Jan 31, 2020, 1:00:00\u{202F}PM</span>".as_bytes()),
        Some(ymd(2020, 1, 31))
    );
}

#[test]
fn date_from_html_takes_the_first_timestamp() {
    let html = b"<span>nothing</span><span>Feb 3, 2019, 1:02:03 AM</span><span>Mar 4, 2018, 1:02:03 AM</span>";
    assert_eq!(date_from_html(html), Some(ymd(2019, 2, 3)));
}

#[test]
fn date_from_html_wants_the_whole_shape() {
    assert_eq!(date_from_html(b"<span>Jul 13, 2023, 7:31:18PM</span>"), None);
    assert_eq!(date_from_html(b"<span>Jul 13, 2023, 7:31:18 PM</div>"), None);
    assert_eq!(date_from_html(b"<span>jul 13, 2023, 7:31:18 PM</span>"), None);
    assert_eq!(date_from_html(b"<span>Jul 13, 23, 7:31:18 PM</span>"), None);
    assert_eq!(date_from_html(b"<span>Jul 13, 2023, 123:31:18 PM</span>"), None);
    assert_eq!(date_from_html(b"<span>Jul 13, 2023, 7:31:18 pm</span>"), None);
    assert_eq!(date_from_html(b"<div>Jul 13, 2023, 7:31:18 PM</div>"), None);
    assert_eq!(date_from_html(b"<span>Jul 13, 2023, 7:31:18 PM"), None);
}

#[test]
fn date_from_html_with_a_date_that_does_not_exist() {
    assert_eq!(date_from_html(b"<span>Abc 13, 2023, 7:31:18 PM</span>"), None);
    assert_eq!(date_from_html(b"<span>Feb 30, 2023, 7:31:18 PM</span>"), None);
}

#[test]
fn resolve_post_date_prefers_the_post() {
    let capture = noon_utc(ymd(2024, 1, 2));
    assert_eq!(
        resolve_post_date(Some(ymd(2023, 7, 13)), b"7/19/23", &capture),
        ymd(2023, 7, 13)
    );
}

#[test]
fn resolve_post_date_then_the_title() {
    let capture = noon_utc(ymd(2024, 1, 2));
    assert_eq!(resolve_post_date(None, b"Hike 7/19/23", &capture), ymd(2023, 7, 19));
}

#[test]
fn resolve_post_date_falls_back_to_the_capture() {
    let capture = CaptureTime { date: ymd(2024, 1, 2), second_of_day: 86399, nanosecond: 0, offset_seconds: -25200 };
    assert_eq!(resolve_post_date(None, b"Hike", &capture), ymd(2024, 1, 2));
    assert_eq!(resolve_post_date(None, b"2/30/2023", &capture), ymd(2024, 1, 2));
}

#[test]
fn from_ymd_opt_agrees_with_chrono() {
    let years = [MIN_YEAR - 1, MIN_YEAR, -4, -1, 0, 1, 1900, 2000, 2023, 2024, 2100, MAX_YEAR, MAX_YEAR + 1];
    for year in years {
        for month in 0..=13u32 {
            for day in 0..=32u32 {
                let ours = PostDate::from_ymd_opt(year, month, day);
                let theirs = chrono::NaiveDate::from_ymd_opt(year, month, day);
                assert_eq!(ours.is_some(), theirs.is_some(), "{year}-{month}-{day}");
                if let Some(date) = ours {
                    assert_eq!(date, ymd(year, month, day));
                }
            }
        }
    }
}

#[test]
fn precedes_orders_by_year_month_day() {
    assert!(ymd(2023, 7, 13).precedes(&ymd(2023, 7, 14)));
    assert!(ymd(2023, 6, 30).precedes(&ymd(2023, 7, 1)));
    assert!(ymd(2022, 12, 31).precedes(&ymd(2023, 1, 1)));
    assert!(!ymd(2023, 7, 13).precedes(&ymd(2023, 7, 13)));
    assert!(!ymd(2023, 7, 14).precedes(&ymd(2023, 7, 13)));
}

#[test]
fn capture_time_default_is_the_epoch() {
    assert_eq!(
        CaptureTime::default(),
        CaptureTime { date: ymd(1970, 1, 1), second_of_day: 0, nanosecond: 0, offset_seconds: 0 }
    );
}
