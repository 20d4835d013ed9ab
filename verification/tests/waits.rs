use yogo::args::{parse_with_error, ArgDate, Args, ParseArgDateErr, TestArgs};
use yogo::date::CalendarDate;
use yogo::wait::{Waiter, DEFAULT_WAIT_TIME};

fn ymd(year: i32, month: u32, day: u32) -> CalendarDate {
    CalendarDate::from_ymd(year, month, day).expect("a day of the calendar")
}

#[test]
fn first_call_never_pauses() {
    let waiter = Waiter::new();
    assert_eq!(waiter.pause(0), 0);
    assert_eq!(waiter.pause(123_456_789), 0);
    assert_eq!(Waiter::default().pause(5), 0);
    assert_eq!(Waiter::with_wait(u64::MAX).pause(u128::MAX), 0);
}

#[test]
fn pause_is_what_is_left_of_the_interval() {
    assert_eq!(DEFAULT_WAIT_TIME, 500);
    let mut waiter = Waiter::new();
    waiter.mark(1_000_000_000);
    assert_eq!(waiter.pause(1_000_000_000), 500_000_000);
    assert_eq!(waiter.pause(1_000_000_001), 499_999_999);
    assert_eq!(waiter.pause(1_200_000_000), 300_000_000);
    assert_eq!(waiter.pause(1_499_999_999), 1);
    assert_eq!(waiter.pause(1_500_000_000), 0);
    assert_eq!(waiter.pause(9_000_000_000), 0);
    assert_eq!(waiter.pause(999_999_999), 500_000_000);
}

#[test]
fn interval_is_as_given() {
    let mut waiter = Waiter::with_wait(3);
    waiter.mark(10);
    assert_eq!(waiter.pause(10), 3_000_000);
    let mut waiter = Waiter::with_wait(0);
    waiter.mark(10);
    assert_eq!(waiter.pause(10), 0);
    let mut waiter = Waiter::with_wait(u64::MAX);
    waiter.mark(0);
    assert_eq!(waiter.pause(0), 18_446_744_073_709_551_615_000_000);
    let copy = waiter.clone();
    assert_eq!(copy.pause(1), 18_446_744_073_709_551_614_999_999);
}

#[test]
fn each_call_starts_a_new_interval() {
    let mut waiter = Waiter::with_wait(1);
    waiter.mark(0);
    let pause: u128 = waiter.pause(400_000);
    assert_eq!(pause, 600_000);
    waiter.mark(400_000 + pause);
    assert_eq!(waiter.pause(1_000_000), 1_000_000);
    assert_eq!(waiter.pause(2_000_000), 0);
}

#[test]
fn date_argument_is_year_month_day() {
    assert_eq!(ArgDate::from_str("2022-01-05").unwrap().0, ymd(2022, 1, 5));
    assert_eq!(ArgDate::from_str("2022-1-5").unwrap().0, ymd(2022, 1, 5));
    assert_eq!(ArgDate::from_str("+2022-+1-+5").unwrap().0, ymd(2022, 1, 5));
    assert_eq!(ArgDate::from_str("2024-02-29-and-more").unwrap().0, ymd(2024, 2, 29));
    assert_eq!(ArgDate::from_str("0001-12-31").unwrap().0, ymd(1, 12, 31));
}

#[test]
fn date_argument_names_its_bad_part() {
    for text in ["", "x-01-05", "-2022-01-05", "20 22-01-05", "3000000000-01-05", "300000-01-05"] {
        assert_eq!(ArgDate::from_str(text).unwrap_err(), ParseArgDateErr::Year, "{text}");
    }
    for text in ["2022", "2022-", "2022-x-05", "2022-13-05", "2022-0-05", "2022--05"] {
        assert_eq!(ArgDate::from_str(text).unwrap_err(), ParseArgDateErr::Month, "{text}");
    }
    for text in ["2022-01", "2022-01-", "2022-01-x", "2022-01-32", "2022-02-29", "2022-04-0"] {
        assert_eq!(ArgDate::from_str(text).unwrap_err(), ParseArgDateErr::Day, "{text}");
    }
}

#[test]
fn part_of_a_date_is_read_with_its_error() {
    assert_eq!(parse_with_error::<u32>(Some("12"), ParseArgDateErr::Month), Ok(12));
    assert_eq!(parse_with_error::<u32>(Some("+012"), ParseArgDateErr::Month), Ok(12));
    assert_eq!(parse_with_error::<u32>(Some("4294967295"), ParseArgDateErr::Day), Ok(u32::MAX));
    assert_eq!(
        parse_with_error::<u32>(Some("4294967296"), ParseArgDateErr::Day),
        Err(ParseArgDateErr::Day)
    );
    assert_eq!(parse_with_error::<u32>(Some("-1"), ParseArgDateErr::Day), Err(ParseArgDateErr::Day));
    assert_eq!(parse_with_error::<u32>(Some(""), ParseArgDateErr::Day), Err(ParseArgDateErr::Day));
    assert_eq!(parse_with_error::<u32>(Some("+"), ParseArgDateErr::Day), Err(ParseArgDateErr::Day));
    assert_eq!(parse_with_error::<u32>(None, ParseArgDateErr::Month), Err(ParseArgDateErr::Month));
    assert_eq!(parse_with_error::<i32>(Some("-2147483648"), ParseArgDateErr::Year), Ok(i32::MIN));
    assert_eq!(parse_with_error::<i32>(Some("2147483647"), ParseArgDateErr::Year), Ok(i32::MAX));
    assert_eq!(
        parse_with_error::<i32>(Some("2147483648"), ParseArgDateErr::Year),
        Err(ParseArgDateErr::Year)
    );
    assert_eq!(parse_with_error::<i32>(Some("-"), ParseArgDateErr::Year), Err(ParseArgDateErr::Year));
    assert_eq!(parse_with_error::<i32>(Some(" 1"), ParseArgDateErr::Year), Err(ParseArgDateErr::Year));
    assert_eq!(parse_with_error::<i32>(None, ParseArgDateErr::Year), Err(ParseArgDateErr::Year));
}

#[test]
fn argument_errors_have_a_text() {
    assert_eq!(ParseArgDateErr::Year.message(), "bad year");
    assert_eq!(ParseArgDateErr::Month.message(), "bad month");
    assert_eq!(ParseArgDateErr::Day.message(), "bad day");
}

#[test]
fn earliest_date_is_the_one_given() {
    let args = Args::new(String::from("urls.txt"), Some(ArgDate(ymd(2022, 1, 1))));
    assert_eq!(args.path, "urls.txt");
    assert_eq!(args.take_after_on(ymd(2022, 6, 15)), ymd(2022, 1, 1));
    assert_eq!(args.take_after(), ymd(2022, 1, 1));
}

#[test]
fn earliest_date_defaults_to_three_days_back() {
    let args = Args::new(String::from("urls.txt"), None);
    assert_eq!(args.take_after_on(ymd(2022, 6, 15)), ymd(2022, 6, 12));
    assert_eq!(args.take_after_on(ymd(2022, 3, 2)), ymd(2022, 2, 27));
    assert_eq!(args.take_after_on(ymd(2024, 3, 2)), ymd(2024, 2, 28));
    assert_eq!(args.take_after_on(ymd(2022, 1, 1)), ymd(2021, 12, 29));
    let today = CalendarDate::today();
    let earliest = args.take_after();
    assert!(earliest.precedes(&today));
    assert!(earliest == today.minus_days(3) || earliest == today.minus_days(2));
}

#[test]
fn trial_arguments_hold_a_path() {
    let args = TestArgs { path: String::from("input.csv") };
    assert_eq!(args.path, "input.csv");
}
