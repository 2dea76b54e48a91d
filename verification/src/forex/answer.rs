//! What the answers to a forex command look like in a chat.

use vstd::prelude::*;
use vstd::string::StringExecFns;

use crate::date::Timestamp;
use crate::forex::order::{in_shown_order, shown_order, Entry};
use crate::response::{ConvertResponseData, CurrencyMap, ForexResp, RatesResponseData};
use crate::text::{chars_of, entry_texts, lower_text, string_of, to_lower, to_upper, upper_text};

verus! {

/// The answers to one forex command.
#[derive(Debug)]
pub enum ForexResponse {
    /// The answers to the default lookups, in the order of the lookups.
    EmptyArgResponse(Vec<ForexResp<ConvertResponseData>>),
    /// The answer to the lookup of one pair.
    SinglePairArgResponse(ForexResp<ConvertResponseData>),
    /// The answer to the lookup of the rates of one base currency.
    BaseRatesResponse(ForexResp<RatesResponseData>),
}

/// Shown in place of a currency that an answer does not name.
pub const INVALID_CURRENCY: &'static str = "INVALID";

/// Shown for an envelope that holds neither payload nor error.
pub const NO_DATA_RETURNED: &'static str = "no data returned";

/// Shown for a payload without currencies.
pub const EMPTY_DATA: &'static str = "invalid response empty data";

/// Shown for an empty list of answers.
pub const EMPTY_BATCH: &'static str = "Empty forex data";

/// The code of the first entry, or the placeholder of a missing currency.
pub open spec fn first_code(m: Seq<Entry>) -> Seq<char> {
    if m.len() > 0 {
        m[0].0
    } else {
        INVALID_CURRENCY@
    }
}

/// What is shown for an error of the pricing service.
pub open spec fn api_error_text(error: Seq<char>) -> Seq<char> {
    "api error: "@ + error
}

/// The line of one answer in the list of default lookups: its error where it has one, else
/// its pair and result, else the note that it is empty.
pub open spec fn batch_line(r: ForexResp<ConvertResponseData>) -> Seq<char> {
    match r.error {
        Some(e) => "\nerror: "@ + e@,
        None => match r.data {
            Some(d) => "\n- <b>"@ + first_code(d.from@) + "/"@ + first_code(d.to@) + "= "@
                + d.code@ + "</b>"@,
            None => "\nno data"@,
        },
    }
}

/// The lines of all answers, in their order.
pub open spec fn batch_lines(rs: Seq<ForexResp<ConvertResponseData>>) -> Seq<char>
    decreases rs.len(),
{
    if rs.len() == 0 {
        Seq::<char>::empty()
    } else {
        batch_lines(rs.drop_last()) + batch_line(rs.last())
    }
}

/// Whether an answer succeeded and carries an instant.
pub open spec fn is_dated(r: ForexResp<ConvertResponseData>) -> bool {
    r.error is None && r.data is Some
}

/// The instant of the first answer that succeeded and carries one, or `now`.
pub open spec fn heading_stamp(rs: Seq<ForexResp<ConvertResponseData>>, now: Timestamp) -> Timestamp
    decreases rs.len(),
{
    if rs.len() == 0 {
        now
    } else if is_dated(rs[0]) {
        rs[0].data.unwrap().date
    } else {
        heading_stamp(rs.drop_first(), now)
    }
}

/// The reply to the default lookups.
pub open spec fn batch_text(rs: Seq<ForexResp<ConvertResponseData>>, now: Timestamp) -> Seq<char> {
    if rs.len() == 0 {
        EMPTY_BATCH@
    } else {
        "Forex data on "@ + heading_stamp(rs, now).text() + ":"@ + batch_lines(rs)
    }
}

/// The reply to the lookup of one pair.
pub open spec fn pair_text(r: ForexResp<ConvertResponseData>) -> Seq<char> {
    match r.error {
        Some(e) => api_error_text(e@),
        None => match r.data {
            Some(d) => if d.from@.len() == 0 || d.to@.len() == 0 {
                EMPTY_DATA@
            } else {
                d.from@[0].0 + "/"@ + d.to@[0].0 + " on "@ + d.date.text() + " is:\n<b>"@
                    + d.code@ + "</b>"@
            },
            None => NO_DATA_RETURNED@,
        },
    }
}

/// How the code of a rate is shown: the base currency in upper case and emphasised.
pub open spec fn code_label(key: Seq<char>, base_key: Seq<char>) -> Seq<char> {
    if key == base_key {
        "<b>"@ + upper_text(key) + "</b>"@
    } else {
        key
    }
}

/// The line of one rate.
pub open spec fn rate_line(e: Entry, base_key: Seq<char>) -> Seq<char> {
    "\n"@ + code_label(e.0, base_key) + ": "@ + e.1
}

/// The lines of the rates `es`, in their order.
pub open spec fn rate_lines(es: Seq<Entry>, base_key: Seq<char>) -> Seq<char>
    decreases es.len(),
{
    if es.len() == 0 {
        Seq::<char>::empty()
    } else {
        rate_lines(es.drop_last(), base_key) + rate_line(es.last(), base_key)
    }
}

/// The reply to the lookup of the rates of one base currency.
pub open spec fn rates_text(r: ForexResp<RatesResponseData>) -> Seq<char> {
    match r.error {
        Some(e) => api_error_text(e@),
        None => match r.data {
            Some(d) => if d.rates@.len() == 0 {
                EMPTY_DATA@
            } else {
                "Rates with base "@ + d.base@ + " on "@ + d.rates_date.text() + ":\n"@
                    + rate_lines(
                    shown_order(d.rates@, lower_text(d.base@)),
                    lower_text(d.base@),
                )
            },
            None => NO_DATA_RETURNED@,
        },
    }
}

impl ForexResponse {
    /// The reply as text; `now` heads the default lookups where no answer carries an instant.
    pub open spec fn text(self, now: Timestamp) -> Seq<char> {
        match self {
            ForexResponse::EmptyArgResponse(rs) => batch_text(rs@, now),
            ForexResponse::SinglePairArgResponse(r) => pair_text(r),
            ForexResponse::BaseRatesResponse(r) => rates_text(r),
        }
    }

    /// Renders the reply; `now` heads the default lookups where no answer carries an instant.
    pub fn render(&self, now: &Timestamp) -> (r: String)
        ensures
            r@ == self.text(*now),
    {
        match self {
            ForexResponse::EmptyArgResponse(rs) => render_batch(rs, now),
            ForexResponse::SinglePairArgResponse(r) => render_pair(r),
            ForexResponse::BaseRatesResponse(r) => render_rates(r),
        }
    }
}

/// The text of the first code of `m`, or of the placeholder.
fn first_code_of(m: &CurrencyMap) -> (r: String)
    ensures
        r@ == first_code(m@),
{
    match m.key(0) {
        Some(k) => k.clone(),
        None => String::from_str(INVALID_CURRENCY),
    }
}

/// Renders what is shown for an error of the pricing service.
pub fn render_api_error(error: &str) -> (r: String)
    ensures
        r@ == api_error_text(error@),
{
    String::from_str("api error: ").concat(error)
}

/// The instant that heads the reply to the default lookups.
pub fn heading_of(rs: &Vec<ForexResp<ConvertResponseData>>, now: &Timestamp) -> (r: Timestamp)
    ensures
        r == heading_stamp(rs@, *now),
{
    let mut i: usize = 0;
    proof {
        assert(rs@.skip(0) == rs@);
    }
    while i < rs.len()
        invariant
            i <= rs.len(),
            heading_stamp(rs@, *now) == heading_stamp(rs@.skip(i as int), *now),
        decreases rs.len() - i,
    {
        if rs[i].error.is_none() {
            match &rs[i].data {
                Some(d) => {
                    return d.date;
                },
                None => {},
            }
        }
        proof {
            assert(rs@.skip(i as int).drop_first() == rs@.skip(i + 1));
        }
        i += 1;
    }
    *now
}

/// Renders the reply to the default lookups.
pub fn render_batch(rs: &Vec<ForexResp<ConvertResponseData>>, now: &Timestamp) -> (r: String)
    ensures
        r@ == batch_text(rs@, *now),
{
    if rs.len() == 0 {
        return String::from_str(EMPTY_BATCH);
    }
    let stamp = heading_of(rs, now);
    let mut out = String::from_str("Forex data on ");
    out.append(stamp.print().as_str());
    out.append(":");
    let ghost head = out@;
    let mut i: usize = 0;
    proof {
        assert(out@ == head + batch_lines(rs@.take(0)));
    }
    while i < rs.len()
        invariant
            i <= rs.len(),
            out@ == head + batch_lines(rs@.take(i as int)),
        decreases rs.len() - i,
    {
        let ghost before = out@;
        match &rs[i].error {
            Some(e) => {
                out.append("\nerror: ");
                out.append(e.as_str());
            },
            None => match &rs[i].data {
                Some(d) => {
                    out.append("\n- <b>");
                    out.append(first_code_of(&d.from).as_str());
                    out.append("/");
                    out.append(first_code_of(&d.to).as_str());
                    out.append("= ");
                    out.append(d.code.as_str());
                    out.append("</b>");
                },
                None => {
                    out.append("\nno data");
                },
            },
        }
        proof {
            let next = rs@.take(i + 1);
            assert(next.drop_last() == rs@.take(i as int));
            assert(next.last() == rs@[i as int]);
            assert(out@ == before + batch_line(rs@[i as int]));
            assert(out@ == head + batch_lines(next));
        }
        i += 1;
    }
    proof {
        assert(rs@.take(rs.len() as int) == rs@);
    }
    out
}

/// Renders the reply to the lookup of one pair.
pub fn render_pair(r: &ForexResp<ConvertResponseData>) -> (out: String)
    ensures
        out@ == pair_text(*r),
{
    match &r.error {
        Some(e) => render_api_error(e.as_str()),
        None => match &r.data {
            Some(d) => {
                match (d.from.key(0), d.to.key(0)) {
                    (Some(from), Some(to)) => {
                        let mut out = from.clone();
                        out.append("/");
                        out.append(to.as_str());
                        out.append(" on ");
                        out.append(d.date.print().as_str());
                        out.append(" is:\n<b>");
                        out.append(d.code.as_str());
                        out.append("</b>");
                        out
                    },
                    _ => String::from_str(EMPTY_DATA),
                }
            },
            None => String::from_str(NO_DATA_RETURNED),
        },
    }
}

/// Renders the reply to the lookup of the rates of one base currency.
pub fn render_rates(r: &ForexResp<RatesResponseData>) -> (out: String)
    ensures
        out@ == rates_text(*r),
{
    match &r.error {
        Some(e) => render_api_error(e.as_str()),
        None => match &r.data {
            Some(d) => {
                if d.rates.is_empty() {
                    String::from_str(EMPTY_DATA)
                } else {
                    render_rate_table(d)
                }
            },
            None => String::from_str(NO_DATA_RETURNED),
        },
    }
}

/// Appends the lines of `entries` to `out`.
fn append_rate_lines(out: &mut String, entries: &Vec<(String, String)>, base_key: &String)
    ensures
        final(out)@ == old(out)@ + rate_lines(entry_texts(entries@), base_key@),
{
    let ghost es = entry_texts(entries@);
    let ghost head = out@;
    let mut i: usize = 0;
    proof {
        assert(out@ == head + rate_lines(es.take(0), base_key@));
    }
    while i < entries.len()
        invariant
            i <= entries.len(),
            es == entry_texts(entries@),
            out@ == head + rate_lines(es.take(i as int), base_key@),
        decreases entries.len() - i,
    {
        let ghost before = out@;
        out.append("\n");
        if entries[i].0 == *base_key {
            out.append("<b>");
            out.append(string_of(&to_upper(&chars_of(entries[i].0.as_str()))).as_str());
            out.append("</b>");
        } else {
            out.append(entries[i].0.as_str());
        }
        out.append(": ");
        out.append(entries[i].1.as_str());
        proof {
            let next = es.take(i + 1);
            assert(next.drop_last() == es.take(i as int));
            assert(next.last() == es[i as int]);
            assert(out@ == before + rate_line(es[i as int], base_key@));
            assert(out@ == head + rate_lines(next, base_key@));
        }
        i += 1;
    }
    proof {
        assert(es.take(entries.len() as int) == es);
    }
}

/// Renders the heading and the lines of a payload of rates.
fn render_rate_table(d: &RatesResponseData) -> (out: String)
    ensures
        out@ == "Rates with base "@ + d.base@ + " on "@ + d.rates_date.text() + ":\n"@
            + rate_lines(shown_order(d.rates@, lower_text(d.base@)), lower_text(d.base@)),
{
    let base_key = string_of(&to_lower(&chars_of(d.base.as_str())));
    let shown = in_shown_order(&d.rates, &base_key);
    let mut out = String::from_str("Rates with base ");
    out.append(d.base.as_str());
    out.append(" on ");
    out.append(d.rates_date.print().as_str());
    out.append(":\n");
    append_rate_lines(&mut out, &shown, &base_key);
    out
}

} // verus!
