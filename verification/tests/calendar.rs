use purchase_sync::date::Date;
use purchase_sync::date::next_day;
use purchase_sync::utils::round_off;
use purchase_sync::utils::widths_as_ascii;

fn d(s: &str) -> Date {
    Date::parse(s).unwrap()
}

#[test]
fn round_off_test() {
    assert_eq!(round_off("aあ", 1), "a");
    assert_eq!(round_off("aあ", 2), "a ");
    assert_eq!(round_off("あa", 1), " ");
    assert_eq!(round_off("あa", 2), "あ");
    assert_eq!(widths_as_ascii("あaあa"), [2, 1, 2, 1]);
    assert_eq!(widths_as_ascii("aあaあ"), [1, 2, 1, 2]);
}

#[test]
fn round_off_keeps_what_fits() {
    assert_eq!(round_off("abc", 0), "");
    assert_eq!(round_off("abc", 2), "ab");
    assert_eq!(round_off("abc", 5), "abc");
    assert_eq!(round_off("", 3), "");
    assert_eq!(round_off("あいう", 6), "あいう");
    assert_eq!(round_off("あいう", 5), "あい ");
}

#[test]
fn parse_accepts_only_real_dates_in_feed_shape() {
    assert_eq!(Date::parse("2021-11-08"), Some(Date { year: 2021, month: 11, day: 8 }));
    assert_eq!(Date::parse("2020-02-29"), Some(Date { year: 2020, month: 2, day: 29 }));
    assert!(Date::parse("2021-02-29").is_none());
    assert!(Date::parse("2021-13-01").is_none());
    assert!(Date::parse("2021-00-10").is_none());
    assert!(Date::parse("2021-04-31").is_none());
    assert!(Date::parse("2021-4-31").is_none());
    assert!(Date::parse("2021/11/08").is_none());
    assert!(Date::parse("21-11-08").is_none());
    assert!(Date::parse("").is_none());
}

#[test]
fn iso_writes_the_feed_shape() {
    assert_eq!(d("2021-11-08").iso(), "2021-11-08");
    assert_eq!(d("0987-01-31").iso(), "0987-01-31");
    assert_eq!(Date { year: 5, month: 2, day: 3 }.iso(), "0005-02-03");
}

#[test]
fn next_day_rolls_over_months_and_years() {
    assert_eq!(next_day(d("2021-11-07")), d("2021-11-08"));
    assert_eq!(next_day(d("2021-11-30")), d("2021-12-01"));
    assert_eq!(next_day(d("2021-12-31")), d("2022-01-01"));
    assert_eq!(next_day(d("2020-02-28")), d("2020-02-29"));
    assert_eq!(next_day(d("2020-02-29")), d("2020-03-01"));
    assert_eq!(next_day(d("2021-02-28")), d("2021-03-01"));
    assert_eq!(next_day(d("2100-02-28")), d("2100-03-01"));
    assert_eq!(next_day(d("2000-02-28")), d("2000-02-29"));
}

#[test]
fn calendar_edges_are_reachable() {
    assert_eq!(next_day(d("9999-12-30")), d("9999-12-31"));
    assert_eq!(d("0000-01-02").prev_day(), d("0000-01-01"));
    assert_eq!(d("0000-01-01").day_number(), 0);
}

#[test]
fn prev_day_undoes_next_day() {
    for s in ["2021-11-08", "2021-12-01", "2022-01-01", "2020-03-01", "2020-02-29"] {
        let date = d(s);
        assert_eq!(next_day(date.prev_day()), date);
    }
}

#[test]
fn clock_yesterday_precedes_today() {
    let y = purchase_sync::business::yesterday().expect("the clock's date is representable");
    let t = purchase_sync::business::today().expect("the clock's date is representable");
    assert!(y.before(&t));
}

#[test]
fn day_numbers_order_the_calendar() {
    let earlier = d("2021-10-31");
    let later = d("2021-11-01");
    assert!(earlier.before(&later));
    assert!(earlier.on_or_before(&later));
    assert!(!later.before(&earlier));
    assert!(later.on_or_before(&later));
    assert_eq!(later.day_number(), earlier.day_number() + 1);
}
