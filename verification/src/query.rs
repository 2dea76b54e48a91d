//! The parameters of the calls to the pricing service: names and values, in order.

use vstd::prelude::*;
use vstd::string::StringExecFns;

use crate::date::Date;
use crate::text::entry_texts;

verus! {

/// A parameter: name and value.
pub type Param = (Seq<char>, Seq<char>);

/// The parameters of one call, in order.
pub type QueryParams = Vec<(String, String)>;

/// The texts of a list of calls.
pub open spec fn query_texts(v: Seq<QueryParams>) -> Seq<Seq<Param>> {
    Seq::new(v.len(), |i: int| entry_texts(v[i]@))
}

/// The parameters that ask what `from` is worth in the currency `to`.
pub open spec fn conversion(from: Seq<char>, to: Seq<char>) -> Seq<Param> {
    seq![("from"@, from), ("to"@, to)]
}

/// The parameter of the day, where a day is asked for.
pub open spec fn date_params(date: Option<Date>) -> Seq<Param> {
    match date {
        Some(d) => seq![("date"@, d.iso_text())],
        None => Seq::<Param>::empty(),
    }
}

/// The parameters that ask what `from` is worth in the currency `to`.
pub fn conversion_of(from: &str, to: &str) -> (r: QueryParams)
    ensures
        entry_texts(r@) == conversion(from@, to@),
{
    let mut q: QueryParams = Vec::new();
    q.push((String::from_str("from"), String::from_str(from)));
    q.push((String::from_str("to"), String::from_str(to)));
    proof {
        assert(entry_texts(q@) =~= conversion(from@, to@));
    }
    q
}

/// Puts the parameter of the day behind `q`, where a day is asked for.
pub fn push_date(q: &mut QueryParams, date: &Option<Date>)
    ensures
        entry_texts(final(q)@) == entry_texts(old(q)@) + date_params(*date),
{
    match date {
        Some(d) => {
            q.push((String::from_str("date"), d.iso()));
            proof {
                assert(entry_texts(q@) =~= entry_texts(old(q)@) + date_params(*date));
            }
        },
        None => {
            proof {
                assert(entry_texts(q@) =~= entry_texts(old(q)@) + date_params(*date));
            }
        },
    }
}

} // verus!
