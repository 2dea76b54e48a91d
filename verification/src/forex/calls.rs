//! The calls to the pricing service that a forex command leads to.

use vstd::prelude::*;

use crate::commands::Args;
use crate::error::{outcome, Failure, HandlerError};
use crate::forex::grammar::{
    forex_outcome, BaseRatesArg, BaseView, ForexArgs, ForexArgsView, PairView, SinglePairArg,
};
use crate::query::{
    conversion, conversion_of, date_params, push_date, query_texts, Param, QueryParams,
};
use crate::text::{chars_of, entry_texts, join, lower_text, string_of, to_lower};

verus! {

/// Where conversions are asked for.
pub const FOREX_CONVERT_ENDPOINT: &'static str = "https://api.mfirhas.com/pfm/forex/convert";

/// Where rates are asked for.
pub const FOREX_RATES_ENDPOINT: &'static str = "https://api.mfirhas.com/pfm/forex/rates";

/// The base currency of the pricing service, which a call need not name.
pub const DEFAULT_BASE: &'static str = "usd";

/// The default lookups, in the order in which their answers are shown.
pub open spec fn default_lookups() -> Seq<Seq<Param>> {
    seq![
        conversion("USD 1"@, "IDR"@),
        conversion("BTC 1"@, "USD"@),
        conversion("XAU 1"@, "USD"@),
        conversion("XAU 1"@, "IDR"@),
        conversion("XAG 1"@, "USD"@),
        conversion("XAG 1"@, "IDR"@),
    ]
}

/// The call for a pair: one unit of the left currency in the right one, on the day asked
/// for where there is one.
pub open spec fn pair_query(p: PairView) -> Seq<Param> {
    conversion(p.left + " 1"@, p.right) + date_params(p.date)
}

/// The parameter of the base currency: none for the base of the pricing service, in any
/// mix of cases.
pub open spec fn base_params(base: Seq<char>) -> Seq<Param> {
    if lower_text(base) == DEFAULT_BASE@ {
        Seq::<Param>::empty()
    } else {
        seq![("base"@, base)]
    }
}

/// The call for the rates of a base currency, on the day asked for where there is one.
pub open spec fn rates_query(b: BaseView) -> Seq<Param> {
    base_params(b.base) + date_params(b.date)
}

/// The calls to make for one forex command.
#[derive(Debug)]
pub enum ForexPlan {
    /// The default lookups, each a call for a conversion.
    Defaults(Vec<QueryParams>),
    /// One call for a conversion.
    Pair(QueryParams),
    /// One call for rates.
    Rates(QueryParams),
}

/// A `ForexPlan` with its texts as sequences of characters.
pub enum ForexPlanView {
    Defaults(Seq<Seq<Param>>),
    Pair(Seq<Param>),
    Rates(Seq<Param>),
}

impl View for ForexPlan {
    type V = ForexPlanView;

    open spec fn view(&self) -> ForexPlanView {
        match self {
            ForexPlan::Defaults(qs) => ForexPlanView::Defaults(query_texts(qs@)),
            ForexPlan::Pair(q) => ForexPlanView::Pair(entry_texts(q@)),
            ForexPlan::Rates(q) => ForexPlanView::Rates(entry_texts(q@)),
        }
    }
}

/// The calls to make for what was asked.
pub open spec fn plan_of(args: ForexArgsView) -> ForexPlanView {
    match args {
        ForexArgsView::Empty => ForexPlanView::Defaults(default_lookups()),
        ForexArgsView::SinglePair(p) => ForexPlanView::Pair(pair_query(p)),
        ForexArgsView::BaseRates(b) => ForexPlanView::Rates(rates_query(b)),
    }
}

/// The calls to make for the arguments `raw`, or the complaint to reply with in their place.
pub open spec fn forex_plan(raw: Seq<char>) -> Result<ForexPlanView, Failure> {
    match forex_outcome(raw) {
        Ok(args) => Ok(plan_of(args)),
        Err(f) => Err(f),
    }
}

/// The default lookups.
pub fn empty_arg() -> (r: Vec<QueryParams>)
    ensures
        query_texts(r@) == default_lookups(),
{
    let mut r: Vec<QueryParams> = Vec::new();
    r.push(conversion_of("USD 1", "IDR"));
    r.push(conversion_of("BTC 1", "USD"));
    r.push(conversion_of("XAU 1", "USD"));
    r.push(conversion_of("XAU 1", "IDR"));
    r.push(conversion_of("XAG 1", "USD"));
    r.push(conversion_of("XAG 1", "IDR"));
    proof {
        assert(query_texts(r@) =~= default_lookups());
    }
    r
}

/// The call for a pair.
pub fn single_pair(arg: &SinglePairArg) -> (r: QueryParams)
    ensures
        entry_texts(r@) == pair_query(arg@),
{
    let mut q = conversion_of(join(arg.left.as_str(), " 1").as_str(), arg.right.as_str());
    push_date(&mut q, &arg.date);
    q
}

/// The call for the rates of a base currency.
pub fn base_rates(arg: &BaseRatesArg) -> (r: QueryParams)
    ensures
        entry_texts(r@) == rates_query(arg@),
{
    let mut q: QueryParams = Vec::new();
    let key = string_of(&to_lower(&chars_of(arg.base.as_str())));
    if key != String::from_str(DEFAULT_BASE) {
        q.push((String::from_str("base"), arg.base.clone()));
    }
    proof {
        assert(entry_texts(q@) =~= base_params(arg.base@));
    }
    push_date(&mut q, &arg.date);
    q
}

/// Decides what to do about a forex command: the calls to make, or the complaint to reply
/// with without making any.
pub fn forex_handler(args: Args) -> (r: Result<ForexPlan, HandlerError>)
    ensures
        outcome(r) == forex_plan(args.0@),
        r is Ok <==> forex_outcome(args.0@) is Ok,
{
    match ForexArgs::try_from(args) {
        Ok(ForexArgs::Empty) => Ok(ForexPlan::Defaults(empty_arg())),
        Ok(ForexArgs::SinglePair(p)) => Ok(ForexPlan::Pair(single_pair(&p))),
        Ok(ForexArgs::BaseRates(b)) => Ok(ForexPlan::Rates(base_rates(&b))),
        Err(e) => Err(e),
    }
}

} // verus!
