use kartel::commands::Args;
use kartel::error::{AsClientError, AsInternalError, HandlerError};
use kartel::sample::{number, TestArgs};
use kartel::text::chars_of;

#[test]
fn sample_arguments_are_two_numbers() {
    assert_eq!(TestArgs::try_from(Args("1 2".to_string())).unwrap(), TestArgs { x: 1, y: 2 });
    assert_eq!(
        TestArgs::try_from(Args("  -7\t+12 ".to_string())).unwrap(),
        TestArgs { x: -7, y: 12 }
    );
    assert_eq!(
        TestArgs::try_from(Args("2147483647 -2147483648".to_string())).unwrap(),
        TestArgs { x: i32::MAX, y: i32::MIN }
    );
}

#[test]
fn sample_complaints_name_what_is_wrong() {
    let cases = [
        ("", "invalid arguments for test command: []"),
        ("1", "invalid arguments for test command: [\"1\"]"),
        ("1 2 3", "invalid arguments for test command: [\"1\", \"2\", \"3\"]"),
        ("a\"b", "invalid arguments for test command: [\"a\\\"b\"]"),
        ("x 2", "test command invalid first argument: must be a number"),
        ("1 y", "test command invalid second argument: must be a number"),
        ("2147483648 1", "test command invalid first argument: must be a number"),
        ("1 -2147483649", "test command invalid second argument: must be a number"),
    ];
    for (raw, expected) in cases {
        match TestArgs::try_from(Args(raw.to_string())) {
            Err(HandlerError::InvalidArguments(m)) => assert_eq!(m, expected, "{:?}", raw),
            other => panic!("unexpected for {:?}: {:?}", raw, other),
        }
    }
}

#[test]
fn numbers_are_read_as_the_standard_reads_them() {
    let samples = [
        "", "+", "-", "0", "-0", "+0", "007", "12", "-12", "+12", "1_000", " 1", "1 ", "1.0", "١٢", "2147483647",
        "2147483648", "-2147483648", "-2147483649", "99999999999999999999999999", "00000000000000000000000001",
        "--1", "+-1", "1e3", "0x10",
    ];
    for s in samples {
        assert_eq!(number(&chars_of(s)), s.parse::<i32>().ok(), "{:?}", s);
    }
    assert_eq!(number(&chars_of("-2147483648")), Some(i32::MIN));
    assert_eq!(number(&chars_of("00000000000000000000000001")), Some(1));
}

#[test]
fn failures_become_complaints_or_internal_errors() {
    let failed: Result<i32, String> = Err("no".to_string());
    match failed.as_client_err() {
        Err(e) => assert_eq!(e.message(), "Invalid Arguments: no"),
        Ok(_) => panic!("unexpected"),
    }
    let failed: Result<i32, String> = Err("down".to_string());
    match failed.as_internal_err() {
        Err(e) => assert_eq!(e.message(), "API call return error response: down"),
        Ok(_) => panic!("unexpected"),
    }
    let fine: Result<i32, String> = Ok(3);
    assert_eq!(fine.as_client_err().unwrap(), 3);
    let fine: Result<i32, String> = Ok(4);
    assert_eq!(fine.as_internal_err().unwrap(), 4);
}

#[test]
fn errors_are_told_by_their_kind() {
    assert_eq!(HandlerError::TelegramError("t".to_string()).message(), "Telegram Error: t");
    assert_eq!(HandlerError::InvalidArguments("a".to_string()).message(), "Invalid Arguments: a");
    assert_eq!(HandlerError::NetworkError("n".to_string()).message(), "API call error: n");
    assert_eq!(
        HandlerError::ApiError("x".to_string()).message(),
        "API call return error response: x"
    );
}
