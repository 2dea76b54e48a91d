use chrono::{TimeZone, Utc};

use kartel::convert::ConvertResponse;
use kartel::date::Timestamp;
use kartel::forex::ForexResponse;
use kartel::reply::reply_handler;
use kartel::response::{collate, ConvertResponseData, CurrencyMap, ForexResp, RatesResponseData};

fn stamp(year: i32, month: u32, day: u32, hour: u32, minute: u32, second: u32) -> Timestamp {
    let instant = Utc.with_ymd_and_hms(year, month, day, hour, minute, second).unwrap();
    Timestamp::new(instant.timestamp(), 0).unwrap()
}

fn map_of(entries: &[(&str, &str)]) -> CurrencyMap {
    let mut map = CurrencyMap::new();
    for (key, value) in entries {
        map.insert(key.to_string(), value.to_string());
    }
    map
}

fn conversion(from: &[(&str, &str)], to: &[(&str, &str)], code: &str, at: Timestamp) -> ConvertResponseData {
    ConvertResponseData {
        date: at,
        from: map_of(from),
        to: map_of(to),
        code: code.to_string(),
        symbol: "Rp15,000.00".to_string(),
    }
}

fn now() -> Timestamp {
    stamp(2030, 1, 1, 0, 0, 0)
}

#[test]
fn timestamps_print_with_their_offset() {
    assert_eq!(stamp(2024, 1, 15, 12, 34, 56).print(), "2024-01-15 12:34:56 +00:00");
    assert_eq!(Timestamp::new(0, 0).unwrap().print(), "1970-01-01 00:00:00 +00:00");
}

#[test]
fn timestamps_out_of_reach_are_refused() {
    assert!(Timestamp::new(i64::MAX, 0).is_none());
    assert!(Timestamp::new(0, 2_000_000_000).is_none());
}

#[test]
fn timestamp_keeps_its_numbers() {
    let t = Timestamp::new(1_700_000_000, 5).unwrap();
    assert_eq!(t.secs(), 1_700_000_000);
    assert_eq!(t.nanos(), 5);
}

#[test]
fn pair_reply_shows_pair_date_and_result() {
    let data = conversion(&[("USD", "1")], &[("IDR", "15000")], "IDR 15,000.00", stamp(2024, 1, 15, 12, 34, 56));
    let reply = ForexResponse::SinglePairArgResponse(ForexResp { data: Some(data), error: None });
    assert_eq!(
        reply.render(&now()),
        "USD/IDR on 2024-01-15 12:34:56 +00:00 is:\n<b>IDR 15,000.00</b>"
    );
}

#[test]
fn error_is_shown_whatever_the_data() {
    let data = conversion(&[("USD", "1")], &[("IDR", "15000")], "IDR 15,000.00", stamp(2024, 1, 15, 12, 34, 56));
    let with_data = ForexResponse::SinglePairArgResponse(ForexResp {
        data: Some(data),
        error: Some("boom".to_string()),
    });
    assert_eq!(with_data.render(&now()), "api error: boom");
    let without: ForexResp<ConvertResponseData> = ForexResp { data: None, error: Some("boom".to_string()) };
    assert!(ForexResponse::SinglePairArgResponse(without).render(&now()).contains("boom"));

    let rates = RatesResponseData {
        rates_date: stamp(2024, 1, 15, 0, 0, 0),
        base: "USD".to_string(),
        rates: map_of(&[("usd", "1")]),
    };
    let reply = ForexResponse::BaseRatesResponse(ForexResp { data: Some(rates), error: Some("boom".to_string()) });
    assert_eq!(reply.render(&now()), "api error: boom");

    let data = conversion(&[("USD", "1")], &[("IDR", "15000")], "IDR 15,000.00", stamp(2024, 1, 15, 12, 34, 56));
    let reply = ConvertResponse::Single(ForexResp { data: Some(data), error: Some("boom".to_string()) });
    assert_eq!(reply.render(), "api error: boom");

    let data = conversion(&[("USD", "1")], &[("IDR", "15000")], "IDR 15,000.00", stamp(2024, 1, 15, 12, 34, 56));
    let batch = ForexResponse::EmptyArgResponse(vec![ForexResp { data: Some(data), error: Some("boom".to_string()) }]);
    assert!(batch.render(&now()).contains("error: boom"));
}

#[test]
fn missing_data_is_told() {
    let pair: ForexResp<ConvertResponseData> = ForexResp { data: None, error: None };
    assert_eq!(ForexResponse::SinglePairArgResponse(pair).render(&now()), "no data returned");
    let rates: ForexResp<RatesResponseData> = ForexResp { data: None, error: None };
    assert_eq!(ForexResponse::BaseRatesResponse(rates).render(&now()), "no data returned");
    let single: ForexResp<ConvertResponseData> = ForexResp { data: None, error: None };
    assert_eq!(ConvertResponse::Single(single).render(), "no data returned");
}

#[test]
fn empty_maps_are_told() {
    let data = conversion(&[], &[("IDR", "15000")], "IDR 15,000.00", stamp(2024, 1, 15, 12, 34, 56));
    let reply = ForexResponse::SinglePairArgResponse(ForexResp { data: Some(data), error: None });
    assert_eq!(reply.render(&now()), "invalid response empty data");

    let data = conversion(&[("USD", "1")], &[], "IDR 15,000.00", stamp(2024, 1, 15, 12, 34, 56));
    let reply = ConvertResponse::Single(ForexResp { data: Some(data), error: None });
    assert_eq!(reply.render(), "invalid response: empty data");

    let rates = RatesResponseData {
        rates_date: stamp(2024, 1, 15, 0, 0, 0),
        base: "USD".to_string(),
        rates: CurrencyMap::new(),
    };
    let reply = ForexResponse::BaseRatesResponse(ForexResp { data: Some(rates), error: None });
    assert_eq!(reply.render(&now()), "invalid response empty data");
}

#[test]
fn rates_show_the_base_first_and_the_rest_by_code() {
    let rates = RatesResponseData {
        rates_date: stamp(2024, 1, 15, 12, 34, 56),
        base: "USD".to_string(),
        rates: map_of(&[("idr", "15000"), ("usd", "1"), ("eur", "0.9")]),
    };
    let reply = ForexResponse::BaseRatesResponse(ForexResp { data: Some(rates), error: None });
    assert_eq!(
        reply.render(&now()),
        "Rates with base USD on 2024-01-15 12:34:56 +00:00:\n\n<b>USD</b>: 1\neur: 0.9\nidr: 15000"
    );
}

#[test]
fn rates_do_not_depend_on_the_order_of_insertion() {
    let orders: [[(&str, &str); 4]; 3] = [
        [("usd", "1"), ("idr", "15000"), ("eur", "0.9"), ("eu", "2")],
        [("eur", "0.9"), ("eu", "2"), ("idr", "15000"), ("usd", "1")],
        [("idr", "15000"), ("eur", "0.9"), ("usd", "1"), ("eu", "2")],
    ];
    for order in orders.iter() {
        let rates = RatesResponseData {
            rates_date: stamp(2024, 1, 15, 12, 34, 56),
            base: "usd".to_string(),
            rates: map_of(order),
        };
        let reply = ForexResponse::BaseRatesResponse(ForexResp { data: Some(rates), error: None });
        assert_eq!(
            reply.render(&now()),
            "Rates with base usd on 2024-01-15 12:34:56 +00:00:\n\n<b>USD</b>: 1\neu: 2\neur: 0.9\nidr: 15000"
        );
    }
}

#[test]
fn rates_without_the_base_are_all_by_code() {
    let rates = RatesResponseData {
        rates_date: stamp(2024, 1, 15, 12, 34, 56),
        base: "XAU".to_string(),
        rates: map_of(&[("usd", "2000"), ("IDR", "3"), ("eur", "1800")]),
    };
    let reply = ForexResponse::BaseRatesResponse(ForexResp { data: Some(rates), error: None });
    assert_eq!(
        reply.render(&now()),
        "Rates with base XAU on 2024-01-15 12:34:56 +00:00:\n\nIDR: 3\neur: 1800\nusd: 2000"
    );
}

#[test]
fn empty_batch_is_told() {
    assert_eq!(ForexResponse::EmptyArgResponse(vec![]).render(&now()), "Empty forex data");
}

#[test]
fn batch_is_headed_by_the_first_dated_answer() {
    let first: ForexResp<ConvertResponseData> = ForexResp { data: None, error: Some("down".to_string()) };
    let second = ForexResp {
        data: Some(conversion(&[("BTC", "1")], &[("USD", "60000")], "USD 60,000.00", stamp(2024, 1, 15, 12, 34, 56))),
        error: None,
    };
    let third: ForexResp<ConvertResponseData> = ForexResp { data: None, error: None };
    let fourth = ForexResp {
        data: Some(conversion(&[], &[], "USD 1.00", stamp(2025, 1, 1, 0, 0, 0))),
        error: None,
    };
    let reply = ForexResponse::EmptyArgResponse(vec![first, second, third, fourth]);
    assert_eq!(
        reply.render(&now()),
        "Forex data on 2024-01-15 12:34:56 +00:00:\nerror: down\n- <b>BTC/USD= USD 60,000.00</b>\nno data\n- <b>INVALID/INVALID= USD 1.00</b>"
    );
}

#[test]
fn batch_without_a_dated_answer_is_headed_by_now() {
    let first: ForexResp<ConvertResponseData> = ForexResp { data: None, error: Some("down".to_string()) };
    let second: ForexResp<ConvertResponseData> = ForexResp { data: None, error: None };
    let reply = ForexResponse::EmptyArgResponse(vec![first, second]);
    assert_eq!(
        reply.render(&now()),
        "Forex data on 2030-01-01 00:00:00 +00:00:\nerror: down\nno data"
    );
}

#[test]
fn a_failed_lookup_is_shown_among_the_others() {
    let first: ForexResp<ConvertResponseData> = ForexResp::failed("timed out".to_string());
    assert!(first.data.is_none());
    assert_eq!(first.error.as_deref(), Some("timed out"));
    let second = ForexResp {
        data: Some(conversion(&[("XAU", "1")], &[("USD", "2000")], "USD 2,000.00", stamp(2024, 1, 15, 12, 34, 56))),
        error: None,
    };
    let reply = ForexResponse::EmptyArgResponse(vec![first, second]);
    assert_eq!(
        reply.render(&now()),
        "Forex data on 2024-01-15 12:34:56 +00:00:\nerror: timed out\n- <b>XAU/USD= USD 2,000.00</b>"
    );
}

#[test]
fn conversion_reply_shows_amount_and_result() {
    let data = conversion(&[("USD", "50,000")], &[("IDR", "750000000")], "IDR 750,000,000.00", stamp(2022, 2, 2, 0, 0, 0));
    let reply = ConvertResponse::Single(ForexResp { data: Some(data), error: None });
    assert_eq!(
        reply.render(),
        "Conversion on 2022-02-02 00:00:00 +00:00:\n<b>USD 50,000 = IDR 750,000,000.00</b>"
    );
}

#[test]
fn currency_map_keeps_one_amount_per_code() {
    let mut map = CurrencyMap::new();
    assert!(map.is_empty());
    map.insert("usd".to_string(), "1".to_string());
    map.insert("idr".to_string(), "2".to_string());
    map.insert("usd".to_string(), "3".to_string());
    assert_eq!(map.len(), 2);
    assert_eq!(map.key(0).unwrap(), "usd");
    assert_eq!(map.value(0).unwrap(), "3");
    assert_eq!(map.key(1).unwrap(), "idr");
    assert_eq!(map.value(1).unwrap(), "2");
    assert_eq!(map.key(2), None);
    assert_eq!(map.value(2), None);
}

#[test]
fn reply_is_echoed() {
    assert_eq!(reply_handler(Some("hello")), Some("reply: hello".to_string()));
    assert_eq!(reply_handler(None), None);
}

#[test]
fn answers_are_put_in_the_order_of_their_calls() {
    let answer = |text: &str| -> ForexResp<i32> { ForexResp { data: None, error: Some(text.to_string()) } };
    let arrivals = vec![(2, answer("c")), (0, answer("a")), (3, answer("d")), (1, answer("b"))];
    let errors: Vec<Option<String>> = collate(4, arrivals).into_iter().map(|r| r.error).collect();
    let expected: Vec<Option<String>> = ["a", "b", "c", "d"].iter().map(|s| Some(s.to_string())).collect();
    assert_eq!(errors, expected);
}

#[test]
fn a_call_without_an_answer_gets_an_empty_envelope() {
    let arrivals = vec![(2, ForexResp { data: Some(7), error: None }), (9, ForexResp { data: Some(1), error: None })];
    let answers = collate(3, arrivals);
    assert_eq!(answers.len(), 3);
    assert!(answers[0].data.is_none() && answers[0].error.is_none());
    assert!(answers[1].data.is_none() && answers[1].error.is_none());
    assert_eq!(answers[2].data, Some(7));
    assert!(collate::<i32>(0, vec![(0, ForexResp::failed("x".to_string()))]).is_empty());
}

#[test]
fn the_answer_that_arrived_last_is_taken() {
    let arrivals = vec![
        (0, ForexResp { data: Some(1), error: None }),
        (1, ForexResp { data: Some(2), error: None }),
        (0, ForexResp { data: Some(3), error: None }),
    ];
    let answers = collate(2, arrivals);
    assert_eq!(answers[0].data, Some(3));
    assert_eq!(answers[1].data, Some(2));
}
