use torin::model::cutify::CutifyOps;
use torin::model::Date;

#[test]
fn test_date_display() {
    let date = Date::new(2023, 10, 5);
    assert_eq!(date.display(), "2023-10-05");
}

#[test]
fn test_date_try_from_str() {
    let date = Date::try_from("2023-10-05").unwrap();
    assert_eq!(date, Date::new(2023, 10, 5));
}

#[test]
fn test_date_now() {
    let now = Date::now();
    assert!(now.year > 2000); // Assuming the test is run after the year 2000
    assert!((1..=12).contains(&now.month));
    assert!((1..=31).contains(&now.day));
}

#[test]
fn test_date_mock() {
    let date = Date::mock(2023, 10, 5);
    assert_eq!(date, Date::new(2023, 10, 5));
}

#[test]
fn test_compare_dates() {
    let d = Date::new(2025, 10, 5);
    struct Case {
        d: Date,
        less: bool,
        less_equal: bool,
        equal: bool,
    }
    let cases = [
        Case { d: Date::new(2024, 10, 5), less: true, less_equal: true, equal: false },
        Case { d: Date::new(2025, 9, 5), less: true, less_equal: true, equal: false },
        Case { d: Date::new(2025, 10, 4), less: true, less_equal: true, equal: false },
        Case { d: Date::new(2025, 10, 5), less: false, less_equal: true, equal: true },
        Case { d: Date::new(2025, 10, 6), less: false, less_equal: false, equal: false },
        Case { d: Date::new(2025, 11, 5), less: false, less_equal: false, equal: false },
        Case { d: Date::new(2026, 10, 5), less: false, less_equal: false, equal: false },
    ];
    for case in cases {
        assert_eq!(case.d < d, case.less, "{} < {} failed", d.display(), case.d.display());
        assert_eq!(case.d <= d, case.less_equal, "{} <= {} failed", d.display(), case.d.display());
        assert_eq!(case.d == d, case.equal, "{} == {} failed", d.display(), case.d.display());
        assert_eq!(case.d > d, !case.less_equal, "{} > {} failed", d.display(), case.d.display());
        assert_eq!(case.d >= d, !case.less, "{} >= {} failed", d.display(), case.d.display());
        assert_eq!(case.d != d, !case.equal, "{} != {} failed", d.display(), case.d.display());
    }
}

#[test]
fn test_date_malformed() {
    assert!(Date::try_from("2023-10").is_err());
    assert!(Date::try_from("2023-10-05-1").is_err());
    assert!(Date::try_from("20a3-10-05").is_err());
    assert!(Date::try_from("2023--10-05").is_err());
    assert!(Date::try_from("99999999999-01-01").is_err());
    assert!(Date::try_from("").is_err());
    assert_eq!(Date::try_from("+2023-10-05").unwrap(), Date::new(2023, 10, 5));
    assert_eq!(Date::try_from("2023-01-05").unwrap().display(), "2023-01-05");
}

#[test]
fn test_cutify() {
    let text = "Hello, World!";
    assert_eq!(text.cutify().styled(), "\x1b[39mHello, World!\x1b[0m");
}

#[test]
fn test_cutify_default() {
    assert_eq!("TEST".cutify().bold().styled(), "\x1b[1;39mTEST\x1b[0m");
}

#[test]
fn test_cutify_red() {
    assert_eq!("TEST".cutify().red().styled(), "\x1b[31mTEST\x1b[0m");
}

#[test]
fn test_cutify_bold() {
    assert_eq!("TEST".cutify().bold().styled(), "\x1b[1;39mTEST\x1b[0m");
}

#[test]
fn test_cutify_red_bold() {
    assert_eq!("TEST".cutify().red().bold().styled(), "\x1b[1;31mTEST\x1b[0m");
}
