//! The convert command: an amount of one currency in another.

use vstd::prelude::*;
use vstd::string::StringExecFns;

use crate::amount::{amount, is_amount};
use crate::commands::Args;
use crate::currency::{code, is_code, is_kept_code, lemma_upper_code};
use crate::date::{read_date, reading_of, reading_view, Date, DateError, DateFault};
use crate::error::{invalid, invalid_with, outcome, Failure, HandlerError};
use crate::forex::answer::{api_error_text, render_api_error, NO_DATA_RETURNED};
use crate::query::{conversion, conversion_of, date_params, push_date, Param, QueryParams};
use crate::response::{ConvertResponseData, ForexResp};
use crate::text::{
    chars_of, entry_texts, free_of, is_word, lemma_pieces, lemma_trimmed_free, lemma_words, split,
    split_on, split_words, string_of, texts, to_upper, trim, trimmed, upper_text, words,
};

verus! {

/// How the arguments of the convert command are written.
pub const CONVERT_USAGE: &'static str =
    "Arguments must be in format: <FROM_CODE> <AMOUNT> ; <TO_CODE> [; <DATE>]\nExample: USD 50,000 ; IDR\nWith date: USD 50,000 ; IDR ; 2022-02-02";

/// How the first part of the arguments is written.
pub const FROM_USAGE: &'static str =
    "FROM part must have format: <CURRENCY_CODE> <AMOUNT>\nExample: USD 1000";

/// Heads the complaint about the code of the source currency.
pub const FROM_CODE_COMPLAINT: &'static str =
    "Currency code must be 3 letters (case insensitive). Got: ";

/// Heads the complaint about the amount.
pub const AMOUNT_COMPLAINT: &'static str =
    "Amount must be a number with optional commas and decimal point. Got: ";

/// Heads the complaint about the code of the target currency.
pub const TO_CODE_COMPLAINT: &'static str =
    "TO currency code must be 3 letters (case insensitive). Got: ";

/// The complaint about a day that was read but cannot be used.
pub const UNUSABLE_DATE: &'static str = "invalid date";

/// A request to convert an amount: codes in upper case, the amount as it was typed.
#[derive(Debug)]
pub struct ConvertArg {
    pub from_currency: String,
    pub from_amount: String,
    pub to_currency: String,
    /// The day of the rate, where one was asked for.
    pub date: Option<Date>,
}

/// A `ConvertArg` with its texts as sequences of characters.
pub struct ConvertView {
    pub from_currency: Seq<char>,
    pub from_amount: Seq<char>,
    pub to_currency: Seq<char>,
    pub date: Option<Date>,
}

impl View for ConvertArg {
    type V = ConvertView;

    open spec fn view(&self) -> ConvertView {
        ConvertView {
            from_currency: self.from_currency@,
            from_amount: self.from_amount@,
            to_currency: self.to_currency@,
            date: self.date,
        }
    }
}

impl ConvertView {
    /// Whether the request is one that the grammar gives: both codes of three ASCII letters
    /// in upper case, the amount one word without a semicolon that has the form of an
    /// amount, the day, where there is one, sound.
    pub open spec fn kept(self) -> bool {
        &&& is_kept_code(self.from_currency)
        &&& is_kept_code(self.to_currency)
        &&& is_word(self.from_amount)
        &&& free_of(self.from_amount, ';')
        &&& is_amount(self.from_amount)
        &&& self.date matches Some(d) ==> d.sound()
    }
}

/// What the convert command was asked for.
#[derive(Debug)]
pub enum ConvertArgs {
    /// Nothing: the default conversion.
    Empty,
    Convert(ConvertArg),
}

/// A `ConvertArgs` with its texts as sequences of characters.
pub enum ConvertArgsView {
    Empty,
    Convert(ConvertView),
}

impl View for ConvertArgs {
    type V = ConvertArgsView;

    open spec fn view(&self) -> ConvertArgsView {
        match self {
            ConvertArgs::Empty => ConvertArgsView::Empty,
            ConvertArgs::Convert(c) => ConvertArgsView::Convert(c@),
        }
    }
}

/// The complaint about the text of a day, given why it was not read as one.
pub open spec fn convert_date_complaint(text: Seq<char>, fault: DateFault) -> Seq<char> {
    match fault {
        DateFault::Unreadable(m) => "Invalid date format \""@ + text + "\": "@ + m
            + ". Expected YYYY-MM-DD format."@,
        DateFault::Unusable => UNUSABLE_DATE@,
    }
}

/// The day of a conversion, given the text of the day and what reading it gave.
pub open spec fn settled_date(text: Seq<char>, reading: Result<Date, DateFault>) -> Result<
    Date,
    Failure,
> {
    match reading {
        Ok(d) => Ok(d),
        Err(fault) => Err(Failure::InvalidArguments(convert_date_complaint(text, fault))),
    }
}

/// What the arguments `raw` ask to convert, or the complaint about the first thing wrong
/// with them: the number of parts between semicolons, the two words of the first part, the
/// code of the source, the amount, the code of the target, the day.
pub open spec fn convert_outcome(raw: Seq<char>) -> Result<ConvertView, Failure> {
    let parts = split_on(trimmed(raw), ';');
    if parts.len() < 2 || parts.len() > 3 {
        Err(Failure::InvalidArguments(CONVERT_USAGE@))
    } else {
        let from_tokens = words(trimmed(parts[0]));
        let to_part = trimmed(parts[1]);
        if from_tokens.len() != 2 {
            Err(Failure::InvalidArguments(FROM_USAGE@))
        } else if !is_code(from_tokens[0]) {
            Err(Failure::InvalidArguments(FROM_CODE_COMPLAINT@ + from_tokens[0]))
        } else if !is_amount(from_tokens[1]) {
            Err(Failure::InvalidArguments(AMOUNT_COMPLAINT@ + from_tokens[1]))
        } else if !is_code(to_part) {
            Err(Failure::InvalidArguments(TO_CODE_COMPLAINT@ + to_part))
        } else if parts.len() == 3 {
            match settled_date(trimmed(parts[2]), reading_of(trimmed(parts[2]))) {
                Ok(d) => Ok(
                    ConvertView {
                        from_currency: upper_text(from_tokens[0]),
                        from_amount: from_tokens[1],
                        to_currency: upper_text(to_part),
                        date: Some(d),
                    },
                ),
                Err(f) => Err(f),
            }
        } else {
            Ok(
                ConvertView {
                    from_currency: upper_text(from_tokens[0]),
                    from_amount: from_tokens[1],
                    to_currency: upper_text(to_part),
                    date: None,
                },
            )
        }
    }
}

/// Whatever is read as a conversion is a request that the grammar gives.
pub proof fn lemma_convert_kept(raw: Seq<char>)
    ensures
        convert_outcome(raw) matches Ok(c) ==> c.kept(),
{
    let parts = split_on(trimmed(raw), ';');
    lemma_pieces(trimmed(raw), ';');
    if convert_outcome(raw) is Ok {
        let from_tokens = words(trimmed(parts[0]));
        let to_part = trimmed(parts[1]);
        lemma_trimmed_free(parts[0], ';');
        lemma_words(trimmed(parts[0]), ';');
        lemma_upper_code(from_tokens[0]);
        lemma_upper_code(to_part);
        if parts.len() == 3 {
            Date::lemma_read_is_sound(trimmed(parts[2]));
        }
    }
}

/// What the convert command is asked for by `raw`: nothing where `raw` holds only white
/// space, else a conversion.
pub open spec fn convert_args_outcome(raw: Seq<char>) -> Result<ConvertArgsView, Failure> {
    if trimmed(raw).len() == 0 {
        Ok(ConvertArgsView::Empty)
    } else {
        match convert_outcome(raw) {
            Ok(c) => Ok(ConvertArgsView::Convert(c)),
            Err(f) => Err(f),
        }
    }
}

/// The day of a conversion, given the text of the day and what reading it gave.
pub fn settle_date(text: &str, reading: Result<Date, DateError>) -> (r: Result<Date, HandlerError>)
    ensures
        match r {
            Ok(d) => settled_date(text@, reading_view(reading)) == Ok::<Date, Failure>(d),
            Err(e) => settled_date(text@, reading_view(reading)) == Err::<Date, Failure>(e@),
        },
{
    match reading {
        Ok(d) => Ok(d),
        Err(DateError::Unreadable(m)) => {
            let mut message = String::from_str("Invalid date format \"");
            message.append(text);
            message.append("\": ");
            message.append(m.as_str());
            message.append(". Expected YYYY-MM-DD format.");
            Err(HandlerError::InvalidArguments(message))
        },
        Err(DateError::Unusable) => Err(invalid(UNUSABLE_DATE)),
    }
}

impl ConvertArg {
    /// Reads the arguments of a conversion: `<CODE> <AMOUNT> ; <CODE>`, with `; <DATE>`
    /// behind it where the rate of a day is asked for.
    pub fn try_from(value: Args) -> (r: Result<ConvertArg, HandlerError>)
        ensures
            outcome(r) == convert_outcome(value.0@),
            r matches Ok(c) ==> c@.kept(),
    {
        proof {
            lemma_convert_kept(value.0@);
        }
        let raw = chars_of(value.0.as_str());
        let whole = trim(&raw);
        let parts = split(&whole, ';');
        if parts.len() < 2 || parts.len() > 3 {
            return Err(invalid(CONVERT_USAGE));
        }
        assert(texts(parts@)[0] == parts@[0]@);
        assert(texts(parts@)[1] == parts@[1]@);
        let from_part = trim(&parts[0]);
        let to_part = trim(&parts[1]);
        let from_tokens = split_words(&from_part);
        if from_tokens.len() != 2 {
            return Err(invalid(FROM_USAGE));
        }
        assert(texts(from_tokens@)[0] == from_tokens@[0]@);
        assert(texts(from_tokens@)[1] == from_tokens@[1]@);
        if !code(&from_tokens[0]) {
            return Err(invalid_with(FROM_CODE_COMPLAINT, string_of(&from_tokens[0]).as_str()));
        }
        let from_amount = string_of(&from_tokens[1]);
        if !amount(from_amount.as_str()) {
            return Err(invalid_with(AMOUNT_COMPLAINT, from_amount.as_str()));
        }
        if !code(&to_part) {
            return Err(invalid_with(TO_CODE_COMPLAINT, string_of(&to_part).as_str()));
        }
        let date = if parts.len() == 3 {
            assert(texts(parts@)[2] == parts@[2]@);
            let date_text = string_of(&trim(&parts[2]));
            match settle_date(date_text.as_str(), read_date(date_text.as_str())) {
                Ok(d) => Some(d),
                Err(e) => {
                    return Err(e);
                },
            }
        } else {
            None
        };
        Ok(
            ConvertArg {
                from_currency: string_of(&to_upper(&from_tokens[0])),
                from_amount,
                to_currency: string_of(&to_upper(&to_part)),
                date,
            },
        )
    }
}

impl ConvertArgs {
    /// Reads the arguments of the convert command.
    pub fn try_from(value: Args) -> (r: Result<ConvertArgs, HandlerError>)
        ensures
            outcome(r) == convert_args_outcome(value.0@),
    {
        let whole = trim(&chars_of(value.0.as_str()));
        if whole.len() == 0 {
            return Ok(ConvertArgs::Empty);
        }
        match ConvertArg::try_from(value) {
            Ok(c) => Ok(ConvertArgs::Convert(c)),
            Err(e) => Err(e),
        }
    }
}

/// Where conversions of an amount are asked for.
pub const CONVERT_ENDPOINT: &'static str = "https://api.mfirhas.com/pfm/v2/forex/convert";

/// What is converted where nothing is asked for.
pub const EMPTY_ARGS_DEFAULT: &'static str = "USD 1";

/// The currency converted into where nothing is asked for.
pub const EMPTY_ARGS_TO: &'static str = "IDR";

/// Shown for a payload without currencies.
pub const EMPTY_CONVERSION: &'static str = "invalid response: empty data";

/// The call for a conversion: the amount of the source currency in the target currency, on
/// the day asked for where there is one.
pub open spec fn convert_query(c: ConvertView) -> Seq<Param> {
    conversion(c.from_currency + " "@ + c.from_amount, c.to_currency) + date_params(c.date)
}

/// The call to make for what was asked.
pub open spec fn convert_plan_of(args: ConvertArgsView) -> Seq<Param> {
    match args {
        ConvertArgsView::Empty => conversion(EMPTY_ARGS_DEFAULT@, EMPTY_ARGS_TO@),
        ConvertArgsView::Convert(c) => convert_query(c),
    }
}

/// The call to make for the arguments `raw`, or the complaint to reply with in its place.
pub open spec fn convert_plan(raw: Seq<char>) -> Result<Seq<Param>, Failure> {
    match convert_args_outcome(raw) {
        Ok(args) => Ok(convert_plan_of(args)),
        Err(f) => Err(f),
    }
}

/// The default conversion.
pub fn empty_arg() -> (r: QueryParams)
    ensures
        entry_texts(r@) == conversion(EMPTY_ARGS_DEFAULT@, EMPTY_ARGS_TO@),
{
    conversion_of(EMPTY_ARGS_DEFAULT, EMPTY_ARGS_TO)
}

/// The call for a conversion.
pub fn convert(arg: &ConvertArg) -> (r: QueryParams)
    ensures
        entry_texts(r@) == convert_query(arg@),
{
    let mut from = arg.from_currency.clone();
    from.append(" ");
    from.append(arg.from_amount.as_str());
    let mut q = conversion_of(from.as_str(), arg.to_currency.as_str());
    push_date(&mut q, &arg.date);
    q
}

/// Decides what to do about a convert command: the call to make, or the complaint to reply
/// with without making one.
pub fn convert_handler(args: Args) -> (r: Result<QueryParams, HandlerError>)
    ensures
        match r {
            Ok(q) => convert_plan(args.0@) == Ok::<Seq<Param>, Failure>(entry_texts(q@)),
            Err(e) => convert_plan(args.0@) == Err::<Seq<Param>, Failure>(e@),
        },
{
    match ConvertArgs::try_from(args) {
        Ok(ConvertArgs::Empty) => Ok(empty_arg()),
        Ok(ConvertArgs::Convert(c)) => Ok(convert(&c)),
        Err(e) => Err(e),
    }
}

/// The answer to one convert command.
#[derive(Debug)]
pub enum ConvertResponse {
    Single(ForexResp<ConvertResponseData>),
}

/// The reply to a conversion: the error where there is one, else the amount that was
/// converted and what it came to, under the instant of the rate.
pub open spec fn conversion_text(r: ForexResp<ConvertResponseData>) -> Seq<char> {
    match r.error {
        Some(e) => api_error_text(e@),
        None => match r.data {
            Some(d) => if d.from@.len() == 0 || d.to@.len() == 0 {
                EMPTY_CONVERSION@
            } else {
                "Conversion on "@ + d.date.text() + ":\n<b>"@ + d.from@[0].0 + " "@ + d.from@[0].1
                    + " = "@ + d.code@ + "</b>"@
            },
            None => NO_DATA_RETURNED@,
        },
    }
}

impl ConvertResponse {
    /// The reply as text.
    pub open spec fn text(self) -> Seq<char> {
        match self {
            ConvertResponse::Single(r) => conversion_text(r),
        }
    }

    /// Renders the reply.
    pub fn render(&self) -> (out: String)
        ensures
            out@ == self.text(),
    {
        match self {
            ConvertResponse::Single(r) => match &r.error {
                Some(e) => render_api_error(e.as_str()),
                None => match &r.data {
                    Some(d) => match (d.from.key(0), d.from.value(0), d.to.is_empty()) {
                        (Some(currency), Some(amount), false) => {
                            let mut out = String::from_str("Conversion on ");
                            out.append(d.date.print().as_str());
                            out.append(":\n<b>");
                            out.append(currency.as_str());
                            out.append(" ");
                            out.append(amount.as_str());
                            out.append(" = ");
                            out.append(d.code.as_str());
                            out.append("</b>");
                            out
                        },
                        _ => String::from_str(EMPTY_CONVERSION),
                    },
                    None => String::from_str(NO_DATA_RETURNED),
                },
            },
        }
    }
}

} // verus!
