//! The forex command: what it can be asked, the calls it leads to, and its replies.

pub mod answer;
pub mod calls;
pub mod grammar;
pub mod order;

pub use answer::{ForexResponse, EMPTY_BATCH, EMPTY_DATA, INVALID_CURRENCY, NO_DATA_RETURNED};
pub use calls::{
    base_rates, empty_arg, forex_handler, single_pair, ForexPlan, DEFAULT_BASE,
    FOREX_CONVERT_ENDPOINT, FOREX_RATES_ENDPOINT,
};
pub use grammar::{classify, BaseRatesArg, ForexArgs, Shape, SinglePairArg};
