//! Amounts of money as they are shown, by the `rust_decimal` and `accounting` crates.

use std::str::FromStr;
use vstd::prelude::*;

verus! {

/// The decimal places that are shown at most.
pub const MONEY_PRECISION: usize = 2;

/// Between the thousands.
pub const THOUSAND_SEPARATOR: &'static str = ",";

/// Before the decimal places.
pub const DECIMAL_SEPARATOR: &'static str = ".";

/// The symbol, a space, the value.
pub const MONEY_FORMAT: &'static str = "{s} {v}";

/// What `rust_decimal::Decimal::from_str` makes of `text`: the digits of the number as one
/// whole number and the count of those digits that stand behind the decimal point, or `None`
/// where it gives an error.
pub uninterp spec fn decimal_of(text: Seq<char>) -> Option<(int, int)>;

/// What `accounting::Accounting::format_money` gives for the number with the digits
/// `mantissa`, `scale` of them behind the decimal point, where the `Accounting` was made by
/// `new_from_seperator` with `symbol`, `precision`, `thousand` and `decimal`, and `set_format`
/// was called on it with `format`. `None` where `rust_decimal` has no such number.
pub uninterp spec fn money_text(
    symbol: Seq<char>,
    precision: int,
    thousand: Seq<char>,
    decimal: Seq<char>,
    format: Seq<char>,
    mantissa: int,
    scale: int,
) -> Option<Seq<char>>;

/// Calls `rust_decimal::Decimal::from_str` and takes the number apart with `mantissa` and
/// `scale`.
#[verifier::external_body]
fn parse_decimal(text: &str) -> (r: Option<(i128, u32)>)
    ensures
        match r {
            Some(d) => decimal_of(text@) == Some((d.0 as int, d.1 as int)),
            None => decimal_of(text@) is None,
        },
{
    match rust_decimal::Decimal::from_str(text) {
        Ok(d) => Some((d.mantissa(), d.scale())),
        Err(_) => None,
    }
}

/// Puts the number together with `rust_decimal::Decimal::try_from_i128_with_scale`, makes an
/// `accounting::Accounting` with `new_from_seperator` and `set_format`, and calls its
/// `format_money` on the number.
#[verifier::external_body]
fn format_decimal(
    symbol: &str,
    precision: usize,
    thousand: &str,
    decimal: &str,
    format: &str,
    mantissa: i128,
    scale: u32,
) -> (r: Option<String>)
    ensures
        match r {
            Some(t) => money_text(
                symbol@,
                precision as int,
                thousand@,
                decimal@,
                format@,
                mantissa as int,
                scale as int,
            ) == Some(t@),
            None => money_text(
                symbol@,
                precision as int,
                thousand@,
                decimal@,
                format@,
                mantissa as int,
                scale as int,
            ) is None,
        },
{
    let value = rust_decimal::Decimal::try_from_i128_with_scale(mantissa, scale).ok()?;
    let mut accounting = accounting::Accounting::new_from_seperator(
        symbol,
        precision,
        thousand,
        decimal,
    );
    accounting.set_format(format);
    Some(accounting.format_money(value))
}

/// The number that is shown for `text`: the number it stands for, or zero where it stands
/// for none.
pub open spec fn shown_amount(text: Seq<char>) -> (int, int) {
    match decimal_of(text) {
        Some(d) => d,
        None => (0, 0),
    }
}

/// How the amount `text` of the currency `code` is shown: the code, a space, and the number
/// with commas between its thousands and at most two decimal places. Nothing is shown where
/// the number cannot be put together again.
pub open spec fn money_display(code: Seq<char>, text: Seq<char>) -> Seq<char> {
    match money_text(
        code,
        MONEY_PRECISION as int,
        THOUSAND_SEPARATOR@,
        DECIMAL_SEPARATOR@,
        MONEY_FORMAT@,
        shown_amount(text).0,
        shown_amount(text).1,
    ) {
        Some(t) => t,
        None => Seq::<char>::empty(),
    }
}

/// Shows the amount `money_str` of the currency `code`; an amount that is no number is shown
/// as zero.
pub fn format_money_str(code: &str, money_str: &str) -> (r: String)
    ensures
        r@ == money_display(code@, money_str@),
{
    let amount = match parse_decimal(money_str) {
        Some(d) => d,
        None => (0i128, 0u32),
    };
    match format_decimal(
        code,
        MONEY_PRECISION,
        THOUSAND_SEPARATOR,
        DECIMAL_SEPARATOR,
        MONEY_FORMAT,
        amount.0,
        amount.1,
    ) {
        Some(t) => t,
        None => String::new(),
    }
}

} // verus!
