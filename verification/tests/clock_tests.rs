use filesync::clock::{date_of_unix_secs, today_utc, END_OF_FOUR_DIGIT_YEARS};

#[test]
fn the_epoch_is_the_first_of_january_1970() {
    assert_eq!(date_of_unix_secs(0), Some("1970-01-01".to_string()));
}

#[test]
fn dates_follow_the_utc_calendar() {
    assert_eq!(date_of_unix_secs(86_399), Some("1970-01-01".to_string()));
    assert_eq!(date_of_unix_secs(86_400), Some("1970-01-02".to_string()));
    assert_eq!(date_of_unix_secs(1_704_153_600), Some("2024-01-02".to_string()));
    assert_eq!(date_of_unix_secs(951_782_400), Some("2000-02-29".to_string()));
}

#[test]
fn the_last_four_digit_second_has_a_date_and_the_next_none() {
    assert_eq!(date_of_unix_secs(END_OF_FOUR_DIGIT_YEARS - 1), Some("9999-12-31".to_string()));
    assert_eq!(date_of_unix_secs(END_OF_FOUR_DIGIT_YEARS), None);
    assert_eq!(date_of_unix_secs(u64::MAX), None);
}

#[test]
fn today_is_written_as_year_month_day() {
    let d = today_utc().expect("the clock reads a time after 1970");
    let chars: Vec<char> = d.chars().collect();
    assert_eq!(chars.len(), 10);
    for (i, c) in chars.iter().enumerate() {
        if i == 4 || i == 7 {
            assert_eq!(*c, '-');
        } else {
            assert!(c.is_ascii_digit());
        }
    }
}
