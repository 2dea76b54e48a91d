use kartel::amount::amount;
use kartel::model::{keep_present, ModelError, PointEntry, Points};
use kartel::money::format_money_str;

#[test]
fn money_is_shown_with_code_and_separators() {
    assert_eq!(format_money_str("IDR", "15000"), "IDR 15,000");
    assert_eq!(format_money_str("USD", "1234567.891"), "USD 1,234,567.89");
    assert_eq!(format_money_str("USD", "0.5"), "USD 0.5");
    assert_eq!(format_money_str("USD", "-42.50"), "-USD 42.50");
}

#[test]
fn money_that_is_no_number_is_shown_as_zero() {
    assert_eq!(format_money_str("IDR", "abc"), "IDR 0");
    assert_eq!(format_money_str("IDR", ""), "IDR 0");
    assert_eq!(format_money_str("IDR", "1,000"), "IDR 0");
}

#[test]
fn amounts_are_digits_commas_and_one_point() {
    for text in ["1000", "50,000", "0.5", "1,234,567.89", "1000.50", ",", "1,,2", ",5.0"] {
        assert!(amount(text), "{:?}", text);
    }
    for text in ["", "-1000", "100abc", "1000$", "1.2.3", ".5", "5.", "1e5", "+1", "1 000", "1\n"] {
        assert!(!amount(text), "{:?}", text);
    }
}

#[test]
fn ascii_amounts_are_judged_as_the_pattern_judges_them() {
    let pattern = regex::Regex::new(kartel::amount::AMOUNT_FORMAT).unwrap();
    let alphabet = ['0', '7', ',', '.', '-', 'a', ' ', '\n'];
    let mut texts = vec![String::new()];
    let mut last = vec![String::new()];
    for _ in 0..5 {
        let mut next = Vec::new();
        for text in &last {
            for c in alphabet {
                let mut longer = text.clone();
                longer.push(c);
                next.push(longer);
            }
        }
        texts.extend(next.iter().cloned());
        last = next;
    }
    assert_eq!(texts.len(), 1 + 8 + 64 + 512 + 4096 + 32768);
    for text in &texts {
        assert_eq!(amount(text), pattern.is_match(text), "{:?}", text);
    }
}

#[test]
fn digits_of_other_scripts_are_left_to_the_pattern() {
    assert!(amount("١٢٣"));
    assert!(amount("1٢,3.٤"));
    assert!(!amount("１２３円"));
    assert!(!amount("é"));
}

#[test]
fn rows_that_were_read_are_kept_in_order() {
    let rows = vec![Some(1), None, Some(2), Some(3), None];
    assert_eq!(keep_present(rows), vec![1, 2, 3]);
    assert_eq!(keep_present(Vec::<Option<i32>>::new()), Vec::<i32>::new());
    assert_eq!(keep_present(vec![None::<i32>, None]), Vec::<i32>::new());

    let rows = vec![
        Some(PointEntry { user_id: 1, user_name: "a".to_string(), points: 3 }),
        None,
        Some(PointEntry { user_id: 2, user_name: "b".to_string(), points: 5 }),
    ];
    let points = Points::new("dadjoke".to_string(), rows);
    assert_eq!(points.topic, "dadjoke");
    assert_eq!(points.entries.len(), 2);
    assert_eq!(points.entries[0].user_id, 1);
    assert_eq!(points.entries[1].user_name, "b");
    assert_eq!(points.entries[1].points, 5);
}

#[test]
fn model_errors_carry_message_and_statement() {
    let e = ModelError::new("no such table".to_string(), "SELECT topic FROM points");
    assert_eq!(e.message, "no such table");
    assert_eq!(e.query, "SELECT topic FROM points");
}
