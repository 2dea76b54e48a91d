//! What the pricing service answers: an envelope around one of two payloads.

use vstd::prelude::*;

use crate::date::Timestamp;
use crate::text::entry_texts;

verus! {

/// Amounts by currency code, in the order in which the codes were first inserted.
/// No code occurs twice.
#[derive(Debug)]
pub struct CurrencyMap {
    entries: Vec<(String, String)>,
}

/// Whether no code occurs twice in `s`.
pub open spec fn distinct_keys(s: Seq<(Seq<char>, Seq<char>)>) -> bool {
    forall|i: int, j: int| 0 <= i < j < s.len() ==> (#[trigger] s[i]).0 != (#[trigger] s[j]).0
}

/// Index of the first entry of `s` with the code `key`, or the length of `s`.
pub open spec fn key_index(s: Seq<(Seq<char>, Seq<char>)>, key: Seq<char>) -> int
    decreases s.len(),
{
    if s.len() == 0 {
        0
    } else if s[0].0 == key {
        0
    } else {
        1 + key_index(s.drop_first(), key)
    }
}

/// `s` after `key` was set to `value`: in place where `s` has the code, at the end where not.
pub open spec fn with_entry(
    s: Seq<(Seq<char>, Seq<char>)>,
    key: Seq<char>,
    value: Seq<char>,
) -> Seq<(Seq<char>, Seq<char>)> {
    let i = key_index(s, key);
    if 0 <= i < s.len() {
        s.update(i, (key, value))
    } else {
        s.push((key, value))
    }
}

/// The first `k` entries do not have the code `key`, and the next one, if there is one, has
/// it: then `k` is the index of `key`.
pub proof fn lemma_key_index(s: Seq<(Seq<char>, Seq<char>)>, key: Seq<char>, k: int)
    requires
        0 <= k <= s.len(),
        forall|i: int| 0 <= i < k ==> (#[trigger] s[i]).0 != key,
        k == s.len() || s[k].0 == key,
    ensures
        key_index(s, key) == k,
    decreases k,
{
    if k > 0 {
        let t = s.drop_first();
        assert forall|i: int| 0 <= i < k - 1 implies (#[trigger] t[i]).0 != key by {
            assert(t[i] == s[i + 1]);
        }
        lemma_key_index(t, key, k - 1);
    }
}

impl View for CurrencyMap {
    type V = Seq<(Seq<char>, Seq<char>)>;

    closed spec fn view(&self) -> Seq<(Seq<char>, Seq<char>)> {
        entry_texts(self.entries@)
    }
}

impl CurrencyMap {
    #[verifier::type_invariant]
    pub closed spec fn well_formed(self) -> bool {
        distinct_keys(self@)
    }

    /// A map without entries.
    pub fn new() -> (r: CurrencyMap)
        ensures
            r@.len() == 0,
    {
        CurrencyMap { entries: Vec::new() }
    }

    /// Sets the amount of `key` to `value`.
    pub fn insert(&mut self, key: String, value: String)
        ensures
            final(self)@ == with_entry(old(self)@, key@, value@),
    {
        proof {
            use_type_invariant(&*self);
        }
        let ghost before = self@;
        let n = self.entries.len();
        let mut entries: Vec<(String, String)> = Vec::new();
        let mut found = false;
        let mut i: usize = 0;
        proof {
            assert(entry_texts(entries@) =~= before.take(0));
        }
        while i < n
            invariant
                i <= n,
                n == before.len(),
                before == self@,
                self@ == old(self)@,
                distinct_keys(before),
                !found ==> entry_texts(entries@) == before.take(i as int),
                !found ==> forall|k: int| 0 <= k < i ==> (#[trigger] before[k]).0 != key@,
                found ==> 0 <= key_index(before, key@) < i && before[key_index(before, key@)].0
                    == key@ && entry_texts(entries@) == before.take(i as int).update(
                    key_index(before, key@),
                    (key@, value@),
                ),
            decreases n - i,
        {
            let ghost so_far = entry_texts(entries@);
            if !found && self.entries[i].0 == key {
                proof {
                    assert(before[i as int].0 == key@);
                    lemma_key_index(before, key@, i as int);
                }
                entries.push((key.clone(), value.clone()));
                found = true;
                proof {
                    assert(entry_texts(entries@) =~= before.take(i + 1).update(
                        i as int,
                        (key@, value@),
                    ));
                }
            } else {
                entries.push((self.entries[i].0.clone(), self.entries[i].1.clone()));
                proof {
                    assert(entry_texts(entries@) =~= so_far.push(before[i as int]));
                    if found {
                        assert(entry_texts(entries@) =~= before.take(i + 1).update(
                            key_index(before, key@),
                            (key@, value@),
                        ));
                    } else {
                        assert(before[i as int].0 != key@);
                        assert(entry_texts(entries@) =~= before.take(i + 1));
                    }
                }
            }
            i += 1;
        }
        proof {
            assert(before.take(n as int) == before);
        }
        if !found {
            proof {
                lemma_key_index(before, key@, n as int);
            }
            entries.push((key, value));
            proof {
                assert(entry_texts(entries@) =~= before.push((key@, value@)));
            }
        }
        proof {
            let after = entry_texts(entries@);
            assert(after == with_entry(before, key@, value@));
            assert forall|a: int, b: int| 0 <= a < b < after.len() implies (#[trigger] after[a]).0
                != (#[trigger] after[b]).0 by {
                if b < before.len() {
                    assert(before[a].0 != before[b].0);
                    assert(after[a].0 == before[a].0);
                    assert(after[b].0 == before[b].0);
                } else {
                    assert(before[a].0 != key@);
                }
            }
        }
        *self = CurrencyMap { entries };
    }

    /// The number of entries, each with a code of its own.
    pub fn len(&self) -> (r: usize)
        ensures
            r == self@.len(),
            distinct_keys(self@),
    {
        proof {
            use_type_invariant(self);
        }
        self.entries.len()
    }

    /// Whether the map has no entry.
    pub fn is_empty(&self) -> (r: bool)
        ensures
            r == (self@.len() == 0),
    {
        self.entries.len() == 0
    }

    /// The code of the entry at `index`, where there is one.
    pub fn key(&self, index: usize) -> (r: Option<&String>)
        ensures
            match r {
                Some(k) => index < self@.len() && k@ == self@[index as int].0,
                None => index >= self@.len(),
            },
    {
        if index < self.entries.len() {
            Some(&self.entries[index].0)
        } else {
            None
        }
    }

    /// The amount of the entry at `index`, where there is one.
    pub fn value(&self, index: usize) -> (r: Option<&String>)
        ensures
            match r {
                Some(v) => index < self@.len() && v@ == self@[index as int].1,
                None => index >= self@.len(),
            },
    {
        if index < self.entries.len() {
            Some(&self.entries[index].1)
        } else {
            None
        }
    }
}

/// The envelope of every answer: a payload, an error, or neither.
#[derive(Debug)]
pub struct ForexResp<T> {
    pub data: Option<T>,
    pub error: Option<String>,
}

impl<T> ForexResp<T> {
    /// The envelope that stands for a call that gave no answer: no payload, and `message`
    /// as its error.
    pub fn failed(message: String) -> (r: ForexResp<T>)
        ensures
            r.data is None,
            r.error == Some(message),
    {
        ForexResp { data: None, error: Some(message) }
    }
}

/// The answer that arrived last for the call `index`, where one arrived.
pub open spec fn latest<T>(arrivals: Seq<(usize, ForexResp<T>)>, index: int) -> Option<
    ForexResp<T>,
>
    decreases arrivals.len(),
{
    if arrivals.len() == 0 {
        None
    } else if arrivals.last().0 == index {
        Some(arrivals.last().1)
    } else {
        latest(arrivals.drop_last(), index)
    }
}

/// What is taken as the answer to the call `index`: the answer that arrived last for it,
/// or an envelope with neither payload nor error where none arrived.
pub open spec fn arrived<T>(arrivals: Seq<(usize, ForexResp<T>)>, index: int) -> ForexResp<T> {
    match latest(arrivals, index) {
        Some(answer) => answer,
        None => ForexResp { data: None, error: None },
    }
}

/// An arrival before others counts only for a call that none of the others answers.
pub proof fn lemma_latest_first<T>(
    first: (usize, ForexResp<T>),
    others: Seq<(usize, ForexResp<T>)>,
    index: int,
)
    ensures
        latest(seq![first] + others, index) == match latest(others, index) {
            Some(answer) => Some(answer),
            None => if first.0 == index {
                Some(first.1)
            } else {
                None
            },
        },
    decreases others.len(),
{
    let all = seq![first] + others;
    if others.len() == 0 {
        assert(all.last() == first);
        assert(all.drop_last().len() == 0);
    } else {
        assert(all.last() == others.last());
        assert(all.drop_last() == seq![first] + others.drop_last());
        lemma_latest_first(first, others.drop_last(), index);
    }
}

/// Puts the answers to `calls` calls in the order of the calls, in whatever order they
/// arrived. Each arrival names the call it answers by its index; one that names no call is
/// left out.
pub fn collate<T>(calls: usize, arrivals: Vec<(usize, ForexResp<T>)>) -> (r: Vec<ForexResp<T>>)
    ensures
        r@.len() == calls,
        forall|i: int| 0 <= i < calls ==> #[trigger] r@[i] == arrived(arrivals@, i),
{
    let ghost all = arrivals@;
    let mut arrivals = arrivals;
    let mut slots: Vec<Option<ForexResp<T>>> = Vec::new();
    while slots.len() < calls
        invariant
            slots@.len() <= calls,
            forall|i: int| 0 <= i < slots@.len() ==> (#[trigger] slots@[i]) is None,
        decreases calls - slots.len(),
    {
        slots.push(None);
    }
    proof {
        assert(all.skip(all.len() as int).len() == 0);
    }
    while arrivals.len() > 0
        invariant
            slots@.len() == calls,
            arrivals@.len() <= all.len(),
            arrivals@ == all.take(arrivals@.len() as int),
            forall|i: int|
                0 <= i < calls ==> #[trigger] slots@[i] == latest(
                    all.skip(arrivals@.len() as int),
                    i,
                ),
        decreases arrivals.len(),
    {
        let ghost k = arrivals@.len() as int;
        let ghost done = all.skip(k);
        let (index, answer) = arrivals.pop().unwrap();
        proof {
            assert(arrivals@ == all.take(k - 1));
            assert(all.skip(k - 1) == seq![(index, answer)] + done);
            assert forall|i: int| 0 <= i < calls implies #[trigger] latest(all.skip(k - 1), i)
                == (match latest(done, i) {
                Some(a) => Some(a),
                None => if index == i {
                    Some(answer)
                } else {
                    None
                },
            }) by {
                lemma_latest_first((index, answer), done, i);
            }
        }
        if index < calls && slots[index].is_none() {
            slots.set(index, Some(answer));
        }
    }
    proof {
        assert(all.skip(0) == all);
    }
    let mut backwards: Vec<ForexResp<T>> = Vec::new();
    while slots.len() > 0
        invariant
            slots@.len() <= calls,
            backwards@.len() == calls - slots@.len(),
            forall|i: int| 0 <= i < slots@.len() ==> #[trigger] slots@[i] == latest(all, i),
            forall|i: int|
                0 <= i < backwards@.len() ==> #[trigger] backwards@[i] == arrived(
                    all,
                    calls - 1 - i,
                ),
        decreases slots.len(),
    {
        let slot = slots.pop().unwrap();
        backwards.push(
            match slot {
                Some(answer) => answer,
                None => ForexResp { data: None, error: None },
            },
        );
    }
    let mut r: Vec<ForexResp<T>> = Vec::new();
    while backwards.len() > 0
        invariant
            backwards@.len() <= calls,
            r@.len() == calls - backwards@.len(),
            forall|i: int|
                0 <= i < backwards@.len() ==> #[trigger] backwards@[i] == arrived(
                    all,
                    calls - 1 - i,
                ),
            forall|i: int| 0 <= i < r@.len() ==> #[trigger] r@[i] == arrived(all, i),
        decreases backwards.len(),
    {
        let answer = backwards.pop().unwrap();
        r.push(answer);
    }
    r
}

/// The payload of a conversion.
#[derive(Debug)]
pub struct ConvertResponseData {
    /// The instant of the rate.
    pub date: Timestamp,
    /// The amount that was converted, under its currency.
    pub from: CurrencyMap,
    /// The amount it came to, under its currency.
    pub to: CurrencyMap,
    /// The resulting amount with its currency code.
    pub code: String,
    /// The resulting amount with its currency symbol.
    pub symbol: String,
}

/// The payload of a rates lookup.
#[derive(Debug)]
pub struct RatesResponseData {
    /// The instant of the rates.
    pub rates_date: Timestamp,
    /// The currency the rates are relative to.
    pub base: String,
    /// The rate of each currency, under its code in lower case.
    pub rates: CurrencyMap,
}

} // verus!
