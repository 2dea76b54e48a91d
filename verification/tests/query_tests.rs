use kartel::commands::Args;
use kartel::convert::{convert, convert_handler, ConvertArg};
use kartel::date::{read_date, Date, DateError};
use kartel::error::HandlerError;
use kartel::forex::{
    base_rates, classify, empty_arg, forex_handler, single_pair, BaseRatesArg, ForexArgs, ForexPlan, Shape,
    SinglePairArg,
};

fn pairs(list: &[(&str, &str)]) -> Vec<(String, String)> {
    list.iter().map(|(k, v)| (k.to_string(), v.to_string())).collect()
}

#[test]
fn default_lookups_are_six_in_order() {
    let expected = vec![
        pairs(&[("from", "USD 1"), ("to", "IDR")]),
        pairs(&[("from", "BTC 1"), ("to", "USD")]),
        pairs(&[("from", "XAU 1"), ("to", "USD")]),
        pairs(&[("from", "XAU 1"), ("to", "IDR")]),
        pairs(&[("from", "XAG 1"), ("to", "USD")]),
        pairs(&[("from", "XAG 1"), ("to", "IDR")]),
    ];
    assert_eq!(empty_arg(), expected);
    assert_eq!(kartel::convert::empty_arg(), pairs(&[("from", "USD 1"), ("to", "IDR")]));
}

#[test]
fn pair_query_asks_for_one_unit() {
    let arg = SinglePairArg { left: "USD".to_string(), right: "IDR".to_string(), date: None };
    assert_eq!(single_pair(&arg), pairs(&[("from", "USD 1"), ("to", "IDR")]));
    let arg = SinglePairArg {
        left: "BTC".to_string(),
        right: "USD".to_string(),
        date: Date::new(2022, 2, 2),
    };
    assert_eq!(single_pair(&arg), pairs(&[("from", "BTC 1"), ("to", "USD"), ("date", "2022-02-02")]));
}

#[test]
fn rates_query_leaves_out_the_default_base() {
    let arg = BaseRatesArg { base: "USD".to_string(), date: None };
    assert_eq!(base_rates(&arg), pairs(&[]));
    let arg = BaseRatesArg { base: "uSd".to_string(), date: Date::new(2022, 2, 2) };
    assert_eq!(base_rates(&arg), pairs(&[("date", "2022-02-02")]));
    let arg = BaseRatesArg { base: "IDR".to_string(), date: None };
    assert_eq!(base_rates(&arg), pairs(&[("base", "IDR")]));
    let arg = BaseRatesArg { base: "IDR".to_string(), date: Date::new(2025, 12, 8) };
    assert_eq!(base_rates(&arg), pairs(&[("base", "IDR"), ("date", "2025-12-08")]));
}

#[test]
fn convert_query_carries_the_amount_as_typed() {
    let arg = ConvertArg::try_from(Args("usd 50,000 ; idr ; 2022-02-02".to_string())).unwrap();
    assert_eq!(
        convert(&arg),
        pairs(&[("from", "USD 50,000"), ("to", "IDR"), ("date", "2022-02-02")])
    );
    let arg = ConvertArg::try_from(Args("BTC 0.5 ; USD".to_string())).unwrap();
    assert_eq!(convert(&arg), pairs(&[("from", "BTC 0.5"), ("to", "USD")]));
}

#[test]
fn parameters_read_back_as_the_request() {
    let arg = ConvertArg::try_from(Args("eur 1,000.50 ; gbp ; 2025-06-30".to_string())).unwrap();
    let query = convert(&arg);
    let again = format!("{} ; {} ; {}", query[0].1, query[1].1, query[2].1);
    let back = ConvertArg::try_from(Args(again)).unwrap();
    assert_eq!(back.from_currency, arg.from_currency);
    assert_eq!(back.from_amount, arg.from_amount);
    assert_eq!(back.to_currency, arg.to_currency);
    assert_eq!(back.date, arg.date);

    let pair = SinglePairArg::try_from(Args("btc/idr 2023-12-25".to_string())).unwrap();
    let query = single_pair(&pair);
    let left = query[0].1.split_whitespace().next().unwrap().to_string();
    let again = format!("{}/{} {}", left, query[1].1, query[2].1);
    let back = SinglePairArg::try_from(Args(again)).unwrap();
    assert_eq!(back.left, "BTC");
    assert_eq!(back.right, "IDR");
    assert_eq!(back.date, pair.date);

    let base = BaseRatesArg::try_from(Args("idr 2022-02-02".to_string())).unwrap();
    let query = base_rates(&base);
    let back = BaseRatesArg::try_from(Args(format!("{} {}", query[0].1, query[1].1))).unwrap();
    assert_eq!(back.base, base.base);
    assert_eq!(back.date, base.date);
}

#[test]
fn shapes_are_told_by_the_first_word() {
    assert_eq!(classify(""), Shape::Empty);
    assert_eq!(classify(" \t\n"), Shape::Empty);
    assert_eq!(classify("usd/idr"), Shape::Pair);
    assert_eq!(classify("  USD/IDR 2022-02-02"), Shape::Pair);
    assert_eq!(classify("usd"), Shape::Base);
    assert_eq!(classify("usd nonsense"), Shape::Base);
    assert_eq!(classify("usd/"), Shape::Other);
    assert_eq!(classify("usd/idr/eur"), Shape::Other);
    assert_eq!(classify("us1"), Shape::Other);
    assert_eq!(classify("USD/IDR/"), Shape::Other);
}

#[test]
fn forex_arguments_by_shape() {
    assert!(matches!(ForexArgs::try_from(Args("".to_string())), Ok(ForexArgs::Empty)));
    assert!(matches!(ForexArgs::try_from(Args("   ".to_string())), Ok(ForexArgs::Empty)));
    match ForexArgs::try_from(Args("usd/idr".to_string())) {
        Ok(ForexArgs::SinglePair(p)) => {
            assert_eq!(p.left, "USD");
            assert_eq!(p.right, "IDR");
            assert_eq!(p.date, None);
        }
        other => panic!("unexpected: {:?}", other),
    }
    match ForexArgs::try_from(Args("USD/IDR 2022-02-02".to_string())) {
        Ok(ForexArgs::SinglePair(p)) => {
            assert_eq!(p.left, "USD");
            assert_eq!(p.right, "IDR");
            assert_eq!(p.date, Date::new(2022, 2, 2));
        }
        other => panic!("unexpected: {:?}", other),
    }
    match ForexArgs::try_from(Args("idr 2022-02-02".to_string())) {
        Ok(ForexArgs::BaseRates(b)) => {
            assert_eq!(b.base, "IDR");
            assert_eq!(b.date, Date::new(2022, 2, 2));
        }
        other => panic!("unexpected: {:?}", other),
    }
}

#[test]
fn forex_complaints_show_the_arguments() {
    for raw in ["USD/IDR not-a-date", "usd 2022-13-01", "dollars", " US/IDR ", "usd/idr/eur"] {
        match ForexArgs::try_from(Args(raw.to_string())) {
            Err(HandlerError::InvalidArguments(m)) => assert_eq!(m, format!("Invalid arguments: {}", raw)),
            other => panic!("unexpected: {:?}", other),
        }
    }
}

#[test]
fn pair_complaints_name_what_is_wrong() {
    match SinglePairArg::try_from(Args("  ".to_string())) {
        Err(HandlerError::InvalidArguments(m)) => assert_eq!(
            m,
            "Arguments must be provided.\nArguments are: \n1. Pair of forex: e.g. \"USD/IDR\", \n2. (Optional) Date of rate, e.g.\"USD/IDR 2022-02-02\" "
        ),
        other => panic!("unexpected: {:?}", other),
    }
    match SinglePairArg::try_from(Args("USD".to_string())) {
        Err(HandlerError::InvalidArguments(m)) => assert_eq!(m, "Forex pair must be in format XXX/YYY"),
        other => panic!("unexpected: {:?}", other),
    }
    match SinglePairArg::try_from(Args("USD/IDR tomorrow".to_string())) {
        Err(HandlerError::InvalidArguments(m)) => {
            assert_eq!(m, "invalid date tomorrow, input contains invalid characters")
        }
        other => panic!("unexpected: {:?}", other),
    }
    match BaseRatesArg::try_from(Args("rupiah".to_string())) {
        Err(HandlerError::InvalidArguments(m)) => {
            assert_eq!(m, "Forex pair must be in format XXX, case insensitive")
        }
        other => panic!("unexpected: {:?}", other),
    }
    match BaseRatesArg::try_from(Args("idr 2022-02-30".to_string())) {
        Err(HandlerError::InvalidArguments(m)) => assert_eq!(m, "invalid date 2022-02-30, input is out of range"),
        other => panic!("unexpected: {:?}", other),
    }
}

#[test]
fn words_behind_the_date_are_not_read() {
    let pair = SinglePairArg::try_from(Args("usd/idr 2022-02-02 and more".to_string())).unwrap();
    assert_eq!(pair.date, Date::new(2022, 2, 2));
}

#[test]
fn convert_complaints_name_what_is_wrong() {
    let usage = "Arguments must be in format: <FROM_CODE> <AMOUNT> ; <TO_CODE> [; <DATE>]\nExample: USD 50,000 ; IDR\nWith date: USD 50,000 ; IDR ; 2022-02-02";
    let cases: Vec<(&str, String)> = vec![
        ("USD 1000 IDR", usage.to_string()),
        ("", usage.to_string()),
        ("a;b;c;d", usage.to_string()),
        ("USD ; IDR", "FROM part must have format: <CURRENCY_CODE> <AMOUNT>\nExample: USD 1000".to_string()),
        (" ; IDR", "FROM part must have format: <CURRENCY_CODE> <AMOUNT>\nExample: USD 1000".to_string()),
        ("US 1000 ; IDR", "Currency code must be 3 letters (case insensitive). Got: US".to_string()),
        ("US -1 ; ID", "Currency code must be 3 letters (case insensitive). Got: US".to_string()),
        (
            "USD -1000 ; ID",
            "Amount must be a number with optional commas and decimal point. Got: -1000".to_string(),
        ),
        (
            "USD 1.2.3 ; IDR",
            "Amount must be a number with optional commas and decimal point. Got: 1.2.3".to_string(),
        ),
        (
            "USD 1e5 ; IDR",
            "Amount must be a number with optional commas and decimal point. Got: 1e5".to_string(),
        ),
        ("USD 1000 ; ID", "TO currency code must be 3 letters (case insensitive). Got: ID".to_string()),
        ("USD 1000 ; ", "TO currency code must be 3 letters (case insensitive). Got: ".to_string()),
        (
            "USD 1000 ; I D",
            "TO currency code must be 3 letters (case insensitive). Got: I D".to_string(),
        ),
        (
            "USD 1000 ; IDR ; 02-02-2022",
            "Invalid date format \"02-02-2022\": trailing input. Expected YYYY-MM-DD format."
                .to_string(),
        ),
        (
            "USD 1000 ; IDR ; ",
            "Invalid date format \"\": premature end of input. Expected YYYY-MM-DD format.".to_string(),
        ),
    ];
    for (raw, expected) in cases {
        match ConvertArg::try_from(Args(raw.to_string())) {
            Err(HandlerError::InvalidArguments(m)) => assert_eq!(m, expected, "for {:?}", raw),
            other => panic!("unexpected for {:?}: {:?}", raw, other),
        }
    }
}

#[test]
fn handlers_plan_the_calls() {
    match forex_handler(Args("".to_string())) {
        Ok(ForexPlan::Defaults(calls)) => assert_eq!(calls, empty_arg()),
        other => panic!("unexpected: {:?}", other),
    }
    match forex_handler(Args("usd/idr 2022-02-02".to_string())) {
        Ok(ForexPlan::Pair(call)) => {
            assert_eq!(call, pairs(&[("from", "USD 1"), ("to", "IDR"), ("date", "2022-02-02")]))
        }
        other => panic!("unexpected: {:?}", other),
    }
    match forex_handler(Args("eur".to_string())) {
        Ok(ForexPlan::Rates(call)) => assert_eq!(call, pairs(&[("base", "EUR")])),
        other => panic!("unexpected: {:?}", other),
    }
    match forex_handler(Args("euro".to_string())) {
        Err(e) => assert_eq!(e.message(), "Invalid Arguments: Invalid arguments: euro"),
        other => panic!("unexpected: {:?}", other),
    }
    assert_eq!(
        convert_handler(Args(" ".to_string())).unwrap(),
        pairs(&[("from", "USD 1"), ("to", "IDR")])
    );
    assert_eq!(
        convert_handler(Args("usd 5 ; eur".to_string())).unwrap(),
        pairs(&[("from", "USD 5"), ("to", "EUR")])
    );
    assert!(convert_handler(Args("usd 5 eur".to_string())).is_err());
}

#[test]
fn dates_are_read_and_printed_by_the_calendar() {
    let day = read_date("2022-02-02").unwrap();
    assert_eq!((day.year(), day.month(), day.day()), (2022, 2, 2));
    assert_eq!(day.iso(), "2022-02-02");
    assert_eq!(Some(day), Date::new(2022, 2, 2));
    assert_eq!(read_date("2024-2-29").unwrap().iso(), "2024-02-29");
    assert!(Date::new(2023, 2, 29).is_none());
    assert!(Date::new(2023, 13, 1).is_none());
    assert!(Date::new(400000, 1, 1).is_none());
    match read_date("2023-02-29") {
        Err(DateError::Unreadable(m)) => assert_eq!(m, "input is out of range"),
        other => panic!("unexpected: {:?}", other),
    }
    match read_date("2022-02-02x") {
        Err(DateError::Unreadable(m)) => assert_eq!(m, "trailing input"),
        other => panic!("unexpected: {:?}", other),
    }
}

#[test]
fn a_day_that_cannot_be_used_is_an_invalid_date() {
    match kartel::forex::grammar::settle_date("2022-02-02", Err(DateError::Unusable)) {
        Err(HandlerError::InvalidArguments(m)) => assert_eq!(m, "invalid date"),
        other => panic!("unexpected: {:?}", other),
    }
    match kartel::convert::settle_date("2022-02-02", Err(DateError::Unusable)) {
        Err(HandlerError::InvalidArguments(m)) => assert_eq!(m, "invalid date"),
        other => panic!("unexpected: {:?}", other),
    }
    match kartel::convert::settle_date("soon", Err(DateError::Unreadable("no".to_string()))) {
        Err(HandlerError::InvalidArguments(m)) => {
            assert_eq!(m, "Invalid date format \"soon\": no. Expected YYYY-MM-DD format.")
        }
        other => panic!("unexpected: {:?}", other),
    }
    match kartel::forex::grammar::settle_date("soon", Err(DateError::Unreadable("no".to_string()))) {
        Err(HandlerError::InvalidArguments(m)) => assert_eq!(m, "invalid date soon, no"),
        other => panic!("unexpected: {:?}", other),
    }
    let day = Date::new(2022, 2, 2).unwrap();
    assert_eq!(kartel::forex::grammar::settle_date("2022-02-02", Ok(day)).unwrap(), day);
    assert_eq!(kartel::convert::settle_date("2022-02-02", Ok(day)).unwrap(), day);
}

#[test]
fn codes_in_any_case_come_out_in_upper_case() {
    for left in ["usd", "USD", "uSd", "Usd", "usD"] {
        for right in ["idr", "IDR", "iDr"] {
            let pair = SinglePairArg::try_from(Args(format!("{}/{}", left, right))).unwrap();
            assert_eq!(pair.left, "USD");
            assert_eq!(pair.right, "IDR");
            assert_eq!(pair.date, None);
            let convert = ConvertArg::try_from(Args(format!("{} 1 ; {}", left, right))).unwrap();
            assert_eq!(convert.from_currency, "USD");
            assert_eq!(convert.to_currency, "IDR");
        }
        let base = BaseRatesArg::try_from(Args(left.to_string())).unwrap();
        assert_eq!(base.base, "USD");
    }
}

#[test]
fn letters_of_other_alphabets_are_no_codes() {
    for raw in ["\u{17f}\u{17f}\u{17f}", "\u{212a}sd", "üsd", "us\u{430}"] {
        assert_eq!(classify(raw), Shape::Other, "{:?}", raw);
        assert!(BaseRatesArg::try_from(Args(raw.to_string())).is_err());
        assert!(SinglePairArg::try_from(Args(format!("{}/idr", raw))).is_err());
        assert!(ConvertArg::try_from(Args(format!("{} 1 ; idr", raw))).is_err());
    }
}

#[test]
fn arguments_keep_their_text() {
    let args = Args::from_str(" usd/idr ");
    assert_eq!(args.0, " usd/idr ");
    assert_eq!(args.text(), " usd/idr ");
    assert_eq!(kartel::config::ENV_PREFIX, "KARTEL_");
}
