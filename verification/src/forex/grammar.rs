//! What the forex command can be asked: nothing, a pair, or a base currency, each with a day
//! where one is wanted.

use vstd::prelude::*;
use vstd::string::StringExecFns;

use crate::commands::Args;
use crate::currency::{code, is_code, is_kept_code, lemma_upper_code};
use crate::date::{read_date, reading_of, reading_view, Date, DateError, DateFault};
use crate::error::{invalid, invalid_with, outcome, Failure, HandlerError};
use crate::text::{
    chars_of, split, split_on, split_words, string_of, texts, to_upper, trim, trimmed, upper_text,
    words,
};

verus! {

/// The complaint about arguments without a word.
pub const EMPTY_ARGS_ERROR: &'static str =
    "Arguments must be provided.\nArguments are: \n1. Pair of forex: e.g. \"USD/IDR\", \n2. (Optional) Date of rate, e.g.\"USD/IDR 2022-02-02\" ";

/// The complaint about a first word that is no pair of codes.
pub const PAIR_FORMAT_ERROR: &'static str = "Forex pair must be in format XXX/YYY";

/// The complaint about a first word that is no code.
pub const BASE_FORMAT_ERROR: &'static str = "Forex pair must be in format XXX, case insensitive";

/// The complaint about a day that was read but cannot be used.
pub const UNUSABLE_DATE: &'static str = "invalid date";

/// Heads the complaint about arguments that are neither a pair nor a base currency.
pub const INVALID_ARGUMENTS: &'static str = "Invalid arguments: ";

/// The lookup of one pair: what `left` is worth in `right`. Codes in upper case.
#[derive(Debug, Clone)]
pub struct SinglePairArg {
    pub left: String,
    pub right: String,
    /// The day of the rate, where one was asked for.
    pub date: Option<Date>,
}

/// A `SinglePairArg` with its texts as sequences of characters.
pub struct PairView {
    pub left: Seq<char>,
    pub right: Seq<char>,
    pub date: Option<Date>,
}

impl View for SinglePairArg {
    type V = PairView;

    open spec fn view(&self) -> PairView {
        PairView { left: self.left@, right: self.right@, date: self.date }
    }
}

impl PairView {
    /// Whether the lookup is one that the grammar gives: both codes of three ASCII letters
    /// in upper case, the day, where there is one, sound.
    pub open spec fn kept(self) -> bool {
        &&& is_kept_code(self.left)
        &&& is_kept_code(self.right)
        &&& self.date matches Some(d) ==> d.sound()
    }
}

/// The lookup of all rates relative to `base`. The code in upper case.
#[derive(Debug, Clone)]
pub struct BaseRatesArg {
    pub base: String,
    /// The day of the rates, where one was asked for.
    pub date: Option<Date>,
}

/// A `BaseRatesArg` with its text as a sequence of characters.
pub struct BaseView {
    pub base: Seq<char>,
    pub date: Option<Date>,
}

impl View for BaseRatesArg {
    type V = BaseView;

    open spec fn view(&self) -> BaseView {
        BaseView { base: self.base@, date: self.date }
    }
}

impl BaseView {
    /// Whether the lookup is one that the grammar gives: the code of three ASCII letters in
    /// upper case, the day, where there is one, sound.
    pub open spec fn kept(self) -> bool {
        &&& is_kept_code(self.base)
        &&& self.date matches Some(d) ==> d.sound()
    }
}

/// What the forex command was asked for.
#[derive(Debug, Clone)]
pub enum ForexArgs {
    /// Nothing: the default lookups.
    Empty,
    SinglePair(SinglePairArg),
    BaseRates(BaseRatesArg),
}

/// A `ForexArgs` with its texts as sequences of characters.
pub enum ForexArgsView {
    Empty,
    SinglePair(PairView),
    BaseRates(BaseView),
}

impl View for ForexArgs {
    type V = ForexArgsView;

    open spec fn view(&self) -> ForexArgsView {
        match self {
            ForexArgs::Empty => ForexArgsView::Empty,
            ForexArgs::SinglePair(p) => ForexArgsView::SinglePair(p@),
            ForexArgs::BaseRates(b) => ForexArgsView::BaseRates(b@),
        }
    }
}

impl ForexArgsView {
    /// Whether the request is one that the grammar gives.
    pub open spec fn kept(self) -> bool {
        match self {
            ForexArgsView::Empty => true,
            ForexArgsView::SinglePair(p) => p.kept(),
            ForexArgsView::BaseRates(b) => b.kept(),
        }
    }
}

/// The shape of the arguments of the forex command, told by their first word.
#[derive(Debug, Clone, Copy, PartialEq, Eq)]
pub enum Shape {
    /// Only white space.
    Empty,
    /// Two codes with one slash between them.
    Pair,
    /// One code.
    Base,
    /// Anything else.
    Other,
}

/// Whether `word` is two currency codes with one slash between them.
pub open spec fn is_pair(word: Seq<char>) -> bool {
    let halves = split_on(word, '/');
    halves.len() == 2 && is_code(halves[0]) && is_code(halves[1])
}

/// The shape of `raw`: a pair is looked for before a base currency.
pub open spec fn shape_of(raw: Seq<char>) -> Shape {
    let parts = words(trimmed(raw));
    if trimmed(raw).len() == 0 {
        Shape::Empty
    } else if parts.len() == 0 {
        Shape::Other
    } else if is_pair(parts[0]) {
        Shape::Pair
    } else if is_code(parts[0]) {
        Shape::Base
    } else {
        Shape::Other
    }
}

/// The complaint about the text of a day, given why it was not read as one.
pub open spec fn date_complaint(text: Seq<char>, fault: DateFault) -> Seq<char> {
    match fault {
        DateFault::Unreadable(m) => "invalid date "@ + text + ", "@ + m,
        DateFault::Unusable => UNUSABLE_DATE@,
    }
}

/// The day of a lookup, given the text of the day and what reading it gave.
pub open spec fn settled_date(text: Seq<char>, reading: Result<Date, DateFault>) -> Result<
    Date,
    Failure,
> {
    match reading {
        Ok(d) => Ok(d),
        Err(fault) => Err(Failure::InvalidArguments(date_complaint(text, fault))),
    }
}

/// The day that the words `parts` ask for: the second word, where there is one, read as a
/// day. Words behind the second are not looked at.
pub open spec fn asked_date(parts: Seq<Seq<char>>) -> Result<Option<Date>, Failure> {
    if parts.len() >= 2 {
        match settled_date(parts[1], reading_of(parts[1])) {
            Ok(d) => Ok(Some(d)),
            Err(f) => Err(f),
        }
    } else {
        Ok(None)
    }
}

/// The pair that `raw` asks for, or the complaint about the first thing wrong with it:
/// no word at all, a first word that is no pair, a second word that is no day.
pub open spec fn pair_outcome(raw: Seq<char>) -> Result<PairView, Failure> {
    let parts = words(trimmed(raw));
    if parts.len() == 0 {
        Err(Failure::InvalidArguments(EMPTY_ARGS_ERROR@))
    } else if !is_pair(parts[0]) {
        Err(Failure::InvalidArguments(PAIR_FORMAT_ERROR@))
    } else {
        match asked_date(parts) {
            Ok(date) => Ok(
                PairView {
                    left: upper_text(split_on(parts[0], '/')[0]),
                    right: upper_text(split_on(parts[0], '/')[1]),
                    date,
                },
            ),
            Err(f) => Err(f),
        }
    }
}

/// The base currency that `raw` asks for, or the complaint about the first thing wrong with
/// it: no word at all, a first word that is no code, a second word that is no day.
pub open spec fn base_outcome(raw: Seq<char>) -> Result<BaseView, Failure> {
    let parts = words(trimmed(raw));
    if parts.len() == 0 {
        Err(Failure::InvalidArguments(EMPTY_ARGS_ERROR@))
    } else if !is_code(parts[0]) {
        Err(Failure::InvalidArguments(BASE_FORMAT_ERROR@))
    } else {
        match asked_date(parts) {
            Ok(date) => Ok(BaseView { base: upper_text(parts[0]), date }),
            Err(f) => Err(f),
        }
    }
}

/// Whatever is read as a pair or as a base currency is a lookup that the grammar gives.
pub proof fn lemma_lookups_kept(raw: Seq<char>)
    ensures
        pair_outcome(raw) matches Ok(p) ==> p.kept(),
        base_outcome(raw) matches Ok(b) ==> b.kept(),
{
    let parts = words(trimmed(raw));
    if parts.len() > 0 {
        if parts.len() >= 2 {
            Date::lemma_read_is_sound(parts[1]);
        }
        if is_pair(parts[0]) {
            lemma_upper_code(split_on(parts[0], '/')[0]);
            lemma_upper_code(split_on(parts[0], '/')[1]);
        }
        if is_code(parts[0]) {
            lemma_upper_code(parts[0]);
        }
    }
}

/// What the forex command is asked for by `raw`, by the shape of `raw`. Whatever is wrong
/// with a pair or a base currency, the complaint shows the arguments as they were typed.
pub open spec fn forex_outcome(raw: Seq<char>) -> Result<ForexArgsView, Failure> {
    match shape_of(raw) {
        Shape::Empty => Ok(ForexArgsView::Empty),
        Shape::Pair => match pair_outcome(raw) {
            Ok(p) => Ok(ForexArgsView::SinglePair(p)),
            Err(_) => Err(Failure::InvalidArguments(INVALID_ARGUMENTS@ + raw)),
        },
        Shape::Base => match base_outcome(raw) {
            Ok(b) => Ok(ForexArgsView::BaseRates(b)),
            Err(_) => Err(Failure::InvalidArguments(INVALID_ARGUMENTS@ + raw)),
        },
        Shape::Other => Err(Failure::InvalidArguments(INVALID_ARGUMENTS@ + raw)),
    }
}

/// Whether `word` is two currency codes with one slash between them.
pub fn pair(word: &Vec<char>) -> (r: bool)
    ensures
        r == is_pair(word@),
{
    let halves = split(word, '/');
    if halves.len() != 2 {
        return false;
    }
    assert(texts(halves@)[0] == halves@[0]@);
    assert(texts(halves@)[1] == halves@[1]@);
    code(&halves[0]) && code(&halves[1])
}

/// The shape of `raw`.
pub fn classify(raw: &str) -> (r: Shape)
    ensures
        r == shape_of(raw@),
{
    let whole = trim(&chars_of(raw));
    if whole.len() == 0 {
        return Shape::Empty;
    }
    let parts = split_words(&whole);
    if parts.len() == 0 {
        return Shape::Other;
    }
    assert(texts(parts@)[0] == parts@[0]@);
    if pair(&parts[0]) {
        Shape::Pair
    } else if code(&parts[0]) {
        Shape::Base
    } else {
        Shape::Other
    }
}

/// The day of a lookup, given the text of the day and what reading it gave.
pub fn settle_date(text: &str, reading: Result<Date, DateError>) -> (r: Result<Date, HandlerError>)
    ensures
        match r {
            Ok(d) => settled_date(text@, reading_view(reading)) == Ok::<Date, Failure>(d),
            Err(e) => settled_date(text@, reading_view(reading)) == Err::<Date, Failure>(e@),
        },
{
    match reading {
        Ok(d) => Ok(d),
        Err(DateError::Unreadable(m)) => {
            let mut message = String::from_str("invalid date ");
            message.append(text);
            message.append(", ");
            message.append(m.as_str());
            Err(HandlerError::InvalidArguments(message))
        },
        Err(DateError::Unusable) => Err(invalid(UNUSABLE_DATE)),
    }
}

/// The day that the words `parts` ask for.
fn date_of_words(parts: &Vec<Vec<char>>) -> (r: Result<Option<Date>, HandlerError>)
    ensures
        match r {
            Ok(d) => asked_date(texts(parts@)) == Ok::<Option<Date>, Failure>(d),
            Err(e) => asked_date(texts(parts@)) == Err::<Option<Date>, Failure>(e@),
        },
        r matches Ok(Some(d)) ==> d.sound(),
{
    if parts.len() >= 2 {
        assert(texts(parts@)[1] == parts@[1]@);
        let date_text = string_of(&parts[1]);
        match settle_date(date_text.as_str(), read_date(date_text.as_str())) {
            Ok(d) => Ok(Some(d)),
            Err(e) => Err(e),
        }
    } else {
        Ok(None)
    }
}

impl SinglePairArg {
    /// Reads the lookup of a pair: `XXX/YYY`, with a day behind it where the rate of a day
    /// is asked for.
    pub fn try_from(value: Args) -> (r: Result<SinglePairArg, HandlerError>)
        ensures
            outcome(r) == pair_outcome(value.0@),
            r matches Ok(p) ==> p@.kept(),
    {
        proof {
            lemma_lookups_kept(value.0@);
        }
        let whole = trim(&chars_of(value.0.as_str()));
        let parts = split_words(&whole);
        if parts.len() == 0 {
            return Err(invalid(EMPTY_ARGS_ERROR));
        }
        assert(texts(parts@)[0] == parts@[0]@);
        let halves = split(&parts[0], '/');
        if halves.len() != 2 {
            return Err(invalid(PAIR_FORMAT_ERROR));
        }
        assert(texts(halves@)[0] == halves@[0]@);
        assert(texts(halves@)[1] == halves@[1]@);
        if !code(&halves[0]) || !code(&halves[1]) {
            return Err(invalid(PAIR_FORMAT_ERROR));
        }
        match date_of_words(&parts) {
            Ok(date) => Ok(
                SinglePairArg {
                    left: string_of(&to_upper(&halves[0])),
                    right: string_of(&to_upper(&halves[1])),
                    date,
                },
            ),
            Err(e) => Err(e),
        }
    }
}

impl BaseRatesArg {
    /// Reads the lookup of a base currency: `XXX`, with a day behind it where the rates of
    /// a day are asked for.
    pub fn try_from(value: Args) -> (r: Result<BaseRatesArg, HandlerError>)
        ensures
            outcome(r) == base_outcome(value.0@),
            r matches Ok(b) ==> b@.kept(),
    {
        proof {
            lemma_lookups_kept(value.0@);
        }
        let whole = trim(&chars_of(value.0.as_str()));
        let parts = split_words(&whole);
        if parts.len() == 0 {
            return Err(invalid(EMPTY_ARGS_ERROR));
        }
        assert(texts(parts@)[0] == parts@[0]@);
        if !code(&parts[0]) {
            return Err(invalid(BASE_FORMAT_ERROR));
        }
        match date_of_words(&parts) {
            Ok(date) => Ok(BaseRatesArg { base: string_of(&to_upper(&parts[0])), date }),
            Err(e) => Err(e),
        }
    }
}

impl ForexArgs {
    /// Reads the arguments of the forex command.
    pub fn try_from(value: Args) -> (r: Result<ForexArgs, HandlerError>)
        ensures
            outcome(r) == forex_outcome(value.0@),
            r matches Ok(a) ==> a@.kept(),
    {
        match classify(value.0.as_str()) {
            Shape::Empty => Ok(ForexArgs::Empty),
            Shape::Pair => {
                let text = value.text();
                match SinglePairArg::try_from(value) {
                    Ok(p) => Ok(ForexArgs::SinglePair(p)),
                    Err(_) => Err(invalid_with(INVALID_ARGUMENTS, text.as_str())),
                }
            },
            Shape::Base => {
                let text = value.text();
                match BaseRatesArg::try_from(value) {
                    Ok(b) => Ok(ForexArgs::BaseRates(b)),
                    Err(_) => Err(invalid_with(INVALID_ARGUMENTS, text.as_str())),
                }
            },
            Shape::Other => Err(invalid_with(INVALID_ARGUMENTS, value.0.as_str())),
        }
    }
}

} // verus!
