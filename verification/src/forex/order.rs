//! The order in which rates are shown: the base currency first, the others by their codes.

use vstd::multiset::Multiset;
use vstd::prelude::*;
use vstd::seq_lib::{to_multiset_build, to_multiset_insert};

use crate::response::{distinct_keys, CurrencyMap};
use crate::text::{
    entry_texts, le, lemma_text_le_antisymmetric, lemma_text_le_total, lemma_text_le_transitive,
    text_le,
};

verus! {

/// An entry of a currency map: code and amount.
pub type Entry = (Seq<char>, Seq<char>);

/// The entries of `es` with the code `key`, in their order.
pub open spec fn with_code(es: Seq<Entry>, key: Seq<char>) -> Seq<Entry>
    decreases es.len(),
{
    if es.len() == 0 {
        es
    } else if es.last().0 == key {
        with_code(es.drop_last(), key).push(es.last())
    } else {
        with_code(es.drop_last(), key)
    }
}

/// The entries of `es` with another code than `key`, in their order.
pub open spec fn without_code(es: Seq<Entry>, key: Seq<char>) -> Seq<Entry>
    decreases es.len(),
{
    if es.len() == 0 {
        es
    } else if es.last().0 != key {
        without_code(es.drop_last(), key).push(es.last())
    } else {
        without_code(es.drop_last(), key)
    }
}

/// `sorted` with `e` put behind its last entry whose code does not come after the code of `e`.
pub open spec fn placed(sorted: Seq<Entry>, e: Entry) -> Seq<Entry>
    decreases sorted.len(),
{
    if sorted.len() == 0 {
        seq![e]
    } else if text_le(sorted.last().0, e.0) {
        sorted.push(e)
    } else {
        placed(sorted.drop_last(), e).push(sorted.last())
    }
}

/// The entries of `es` by ascending code; entries with one code keep their order.
pub open spec fn ascending(es: Seq<Entry>) -> Seq<Entry>
    decreases es.len(),
{
    if es.len() == 0 {
        es
    } else {
        placed(ascending(es.drop_last()), es.last())
    }
}

/// The order in which rates are shown: the entries of the base currency, then the others
/// by ascending code.
pub open spec fn shown_order(es: Seq<Entry>, base_key: Seq<char>) -> Seq<Entry> {
    with_code(es, base_key) + ascending(without_code(es, base_key))
}

/// Whether the codes of `es` ascend: none comes after one behind it.
pub open spec fn codes_ascend(es: Seq<Entry>) -> bool {
    forall|i: int, j: int|
        0 <= i < j < es.len() ==> text_le((#[trigger] es[i]).0, (#[trigger] es[j]).0)
}

/// Whether two lists hold the same entries, in whatever order.
pub open spec fn same_entries(a: Seq<Entry>, b: Seq<Entry>) -> bool {
    forall|e: Entry| a.contains(e) <==> b.contains(e)
}

/// Where the codes of `sorted` from `at` on all come after the code of `e`, and the code
/// before `at` does not, `e` is placed at `at`.
pub proof fn lemma_placed(sorted: Seq<Entry>, e: Entry, at: int)
    requires
        0 <= at <= sorted.len(),
        forall|k: int| at <= k < sorted.len() ==> !text_le((#[trigger] sorted[k]).0, e.0),
        at == 0 || text_le(sorted[at - 1].0, e.0),
    ensures
        placed(sorted, e) == sorted.insert(at, e),
    decreases sorted.len() - at,
{
    if sorted.len() == 0 {
        assert(sorted.insert(0, e) == seq![e]);
    } else if at == sorted.len() {
        assert(sorted.insert(at, e) == sorted.push(e));
    } else {
        let rest = sorted.drop_last();
        assert forall|k: int| at <= k < rest.len() implies !text_le(
            (#[trigger] rest[k]).0,
            e.0,
        ) by {
            assert(rest[k] == sorted[k]);
        }
        assert(!text_le(sorted[sorted.len() - 1].0, e.0));
        lemma_placed(rest, e, at);
        assert(rest.insert(at, e).push(sorted.last()) == sorted.insert(at, e));
    }
}

/// Puts `e` behind the last entry of `sorted` whose code does not come after the code of `e`.
fn place(sorted: &mut Vec<(String, String)>, e: (String, String))
    ensures
        entry_texts(final(sorted)@) == placed(
            entry_texts(old(sorted)@),
            (e.0@, e.1@),
        ),
{
    let ghost before = entry_texts(sorted@);
    let mut at: usize = sorted.len();
    while at > 0 && !le(sorted[at - 1].0.as_str(), e.0.as_str())
        invariant
            at <= sorted.len(),
            sorted@ == old(sorted)@,
            before == entry_texts(sorted@),
            forall|k: int| at <= k < before.len() ==> !text_le((#[trigger] before[k]).0, e.0@),
        decreases at,
    {
        at -= 1;
    }
    proof {
        lemma_placed(before, (e.0@, e.1@), at as int);
    }
    sorted.insert(at, e);
    proof {
        assert(entry_texts(sorted@) =~= before.insert(at as int, (e.0@, e.1@)));
    }
}

/// Where `e` goes in `sorted`: behind the last entry whose code does not come after its own.
pub open spec fn place_of(sorted: Seq<Entry>, e: Entry) -> int
    decreases sorted.len(),
{
    if sorted.len() == 0 {
        0
    } else if text_le(sorted.last().0, e.0) {
        sorted.len() as int
    } else {
        place_of(sorted.drop_last(), e)
    }
}

/// Placing an entry inserts it at its place; every code behind the place comes after the
/// code of the entry.
pub proof fn lemma_place_of(sorted: Seq<Entry>, e: Entry)
    ensures
        0 <= place_of(sorted, e) <= sorted.len(),
        placed(sorted, e) == sorted.insert(place_of(sorted, e), e),
        forall|k: int|
            place_of(sorted, e) <= k < sorted.len() ==> !text_le((#[trigger] sorted[k]).0, e.0),
        place_of(sorted, e) == 0 || text_le(sorted[place_of(sorted, e) - 1].0, e.0),
    decreases sorted.len(),
{
    if sorted.len() == 0 {
        assert(sorted.insert(0, e) == seq![e]);
    } else if text_le(sorted.last().0, e.0) {
        assert(sorted.insert(sorted.len() as int, e) == sorted.push(e));
    } else {
        let rest = sorted.drop_last();
        lemma_place_of(rest, e);
        let at = place_of(rest, e);
        assert(rest.insert(at, e).push(sorted.last()) == sorted.insert(at, e));
        assert forall|k: int| at <= k < sorted.len() implies !text_le(
            (#[trigger] sorted[k]).0,
            e.0,
        ) by {
            if k < rest.len() {
                assert(rest[k] == sorted[k]);
            }
        }
        if at > 0 {
            assert(rest[at - 1] == sorted[at - 1]);
        }
    }
}

/// Placing an entry among ascending codes leaves the codes ascending.
pub proof fn lemma_placed_ascends(sorted: Seq<Entry>, e: Entry)
    requires
        codes_ascend(sorted),
    ensures
        codes_ascend(placed(sorted, e)),
{
    lemma_place_of(sorted, e);
    let at = place_of(sorted, e);
    let r = sorted.insert(at, e);
    assert forall|i: int, j: int| 0 <= i < j < r.len() implies text_le(
        (#[trigger] r[i]).0,
        (#[trigger] r[j]).0,
    ) by {
        if j < at {
            assert(r[i] == sorted[i] && r[j] == sorted[j]);
        } else if j == at {
            assert(r[i] == sorted[i]);
            assert(r[j] == e);
            if i < at - 1 {
                assert(text_le(sorted[i].0, sorted[at - 1].0));
                lemma_text_le_transitive(sorted[i].0, sorted[at - 1].0, e.0);
            }
        } else if i == at {
            assert(r[j] == sorted[j - 1]);
            assert(!text_le(sorted[j - 1].0, e.0));
            lemma_text_le_total(e.0, sorted[j - 1].0);
        } else if i > at {
            assert(r[i] == sorted[i - 1] && r[j] == sorted[j - 1]);
        } else {
            assert(r[i] == sorted[i] && r[j] == sorted[j - 1]);
        }
    }
}

/// The entries by ascending code ascend by code and are the same entries, each as often.
pub proof fn lemma_ascending(es: Seq<Entry>)
    ensures
        codes_ascend(ascending(es)),
        ascending(es).to_multiset() == es.to_multiset(),
        ascending(es).len() == es.len(),
    decreases es.len(),
{
    if es.len() > 0 {
        let rest = es.drop_last();
        lemma_ascending(rest);
        lemma_placed_ascends(ascending(rest), es.last());
        lemma_place_of(ascending(rest), es.last());
        to_multiset_insert(ascending(rest), place_of(ascending(rest), es.last()), es.last());
        assert(rest.push(es.last()) == es);
        to_multiset_build(rest, es.last());
    }
}

/// The entries with a code and the entries without it are together all the entries; the
/// former have the code, the latter do not.
pub proof fn lemma_codes_part(es: Seq<Entry>, key: Seq<char>)
    ensures
        with_code(es, key).to_multiset().add(without_code(es, key).to_multiset())
            == es.to_multiset(),
        forall|i: int| 0 <= i < with_code(es, key).len() ==> (#[trigger] with_code(es, key)[i]).0 == key,
        forall|i: int|
            0 <= i < without_code(es, key).len() ==> (#[trigger] without_code(es, key)[i]).0 != key,
    decreases es.len(),
{
    broadcast use vstd::multiset::group_multiset_axioms;

    if es.len() == 0 {
        es.to_multiset_ensures();
        assert(es.to_multiset() =~= Multiset::<Entry>::empty());
        assert(with_code(es, key).to_multiset().add(without_code(es, key).to_multiset())
            =~= es.to_multiset());
    } else {
        let rest = es.drop_last();
        lemma_codes_part(rest, key);
        assert(rest.push(es.last()) == es);
        to_multiset_build(rest, es.last());
        to_multiset_build(with_code(rest, key), es.last());
        to_multiset_build(without_code(rest, key), es.last());
        assert(with_code(es, key).to_multiset().add(without_code(es, key).to_multiset())
            =~= es.to_multiset());
    }
}

/// A list with one more entry holds that entry and what it held.
pub proof fn lemma_push_contains(s: Seq<Entry>, last: Entry, e: Entry)
    ensures
        s.push(last).contains(e) <==> s.contains(e) || e == last,
{
    let t = s.push(last);
    if s.contains(e) {
        let i = choose|i: int| 0 <= i < s.len() && s[i] == e;
        assert(t[i] == e);
    }
    if e == last {
        assert(t[s.len() as int] == e);
    }
    if t.contains(e) {
        let i = choose|i: int| 0 <= i < t.len() && t[i] == e;
        if i < s.len() {
            assert(s[i] == e);
        }
    }
}

/// A list that holds each of its codes once still does with one more entry of a code that
/// it did not hold.
pub proof fn lemma_push_distinct(s: Seq<Entry>, last: Entry)
    requires
        distinct_keys(s),
        forall|e: Entry| s.contains(e) ==> e.0 != last.0,
    ensures
        distinct_keys(s.push(last)),
{
    let t = s.push(last);
    assert forall|i: int, j: int| 0 <= i < j < t.len() implies (#[trigger] t[i]).0 != (
    #[trigger] t[j]).0 by {
        if j < s.len() {
            assert(s[i].0 != s[j].0);
        } else {
            assert(s.contains(s[i]));
        }
    }
}

/// The entries with a code are the entries that have it, and those without it the others;
/// either list holds each of its codes once where the whole list does.
pub proof fn lemma_codes_choose(es: Seq<Entry>, key: Seq<char>)
    ensures
        forall|e: Entry| #[trigger] with_code(es, key).contains(e) <==> es.contains(e) && e.0 == key,
        forall|e: Entry| #[trigger]
            without_code(es, key).contains(e) <==> es.contains(e) && e.0 != key,
        distinct_keys(es) ==> distinct_keys(with_code(es, key)) && distinct_keys(
            without_code(es, key),
        ),
    decreases es.len(),
{
    if es.len() > 0 {
        let rest = es.drop_last();
        let last = es.last();
        lemma_codes_choose(rest, key);
        assert(rest.push(last) == es);
        let with = with_code(es, key);
        let without = without_code(es, key);
        assert forall|e: Entry| #[trigger] with.contains(e) <==> es.contains(e) && e.0 == key by {
            lemma_push_contains(rest, last, e);
            assert(es.contains(e) <==> rest.contains(e) || e == last);
            assert(with_code(rest, key).contains(e) <==> rest.contains(e) && e.0 == key);
            if last.0 == key {
                lemma_push_contains(with_code(rest, key), last, e);
            }
        }
        assert forall|e: Entry| #[trigger] without.contains(e) <==> es.contains(e) && e.0
            != key by {
            lemma_push_contains(rest, last, e);
            assert(es.contains(e) <==> rest.contains(e) || e == last);
            assert(without_code(rest, key).contains(e) <==> rest.contains(e) && e.0 != key);
            if last.0 != key {
                lemma_push_contains(without_code(rest, key), last, e);
            }
        }
        if distinct_keys(es) {
            assert(distinct_keys(rest)) by {
                assert forall|i: int, j: int| 0 <= i < j < rest.len() implies (#[trigger] rest[i]).0
                    != (#[trigger] rest[j]).0 by {
                    assert(es[i].0 != es[j].0);
                }
            }
            assert forall|e: Entry| rest.contains(e) implies e.0 != last.0 by {
                let i = choose|i: int| 0 <= i < rest.len() && rest[i] == e;
                assert(es[i].0 != es[es.len() - 1].0);
            }
            if last.0 == key {
                lemma_push_distinct(with_code(rest, key), last);
            } else {
                lemma_push_distinct(without_code(rest, key), last);
            }
        }
    } else {
        assert forall|e: Entry| !es.contains(e) by {}
    }
}

/// The entries by ascending code are the same entries, and hold each code once where the
/// list did.
pub proof fn lemma_ascending_same(es: Seq<Entry>)
    ensures
        same_entries(ascending(es), es),
        distinct_keys(es) ==> distinct_keys(ascending(es)),
    decreases es.len(),
{
    if es.len() > 0 {
        let rest = es.drop_last();
        let last = es.last();
        lemma_ascending_same(rest);
        assert(rest.push(last) == es);
        let sorted = ascending(rest);
        lemma_place_of(sorted, last);
        let at = place_of(sorted, last);
        let r = sorted.insert(at, last);
        assert forall|e: Entry| r.contains(e) <==> es.contains(e) by {
            lemma_push_contains(rest, last, e);
            if sorted.contains(e) {
                let i = choose|i: int| 0 <= i < sorted.len() && sorted[i] == e;
                if i < at {
                    assert(r[i] == e);
                } else {
                    assert(r[i + 1] == e);
                }
            }
            if e == last {
                assert(r[at] == e);
            }
            if r.contains(e) {
                let i = choose|i: int| 0 <= i < r.len() && r[i] == e;
                if i < at {
                    assert(sorted[i] == e);
                } else if i > at {
                    assert(sorted[i - 1] == e);
                }
            }
        }
        if distinct_keys(es) {
            assert(distinct_keys(rest)) by {
                assert forall|i: int, j: int| 0 <= i < j < rest.len() implies (#[trigger] rest[i]).0
                    != (#[trigger] rest[j]).0 by {
                    assert(es[i].0 != es[j].0);
                }
            }
            assert forall|e: Entry| sorted.contains(e) implies e.0 != last.0 by {
                assert(rest.contains(e));
                let i = choose|i: int| 0 <= i < rest.len() && rest[i] == e;
                assert(es[i].0 != es[es.len() - 1].0);
            }
            assert forall|i: int, j: int| 0 <= i < j < r.len() implies (#[trigger] r[i]).0 != (
            #[trigger] r[j]).0 by {
                if i == at {
                    assert(r[j] == sorted[j - 1]);
                    assert(sorted.contains(sorted[j - 1]));
                } else if j == at {
                    assert(r[i] == sorted[i]);
                    assert(sorted.contains(sorted[i]));
                } else {
                    let a = if i < at {
                        i
                    } else {
                        i - 1
                    };
                    let b = if j < at {
                        j
                    } else {
                        j - 1
                    };
                    assert(r[i] == sorted[a] && r[j] == sorted[b]);
                    assert(sorted[a].0 != sorted[b].0);
                }
            }
        }
    } else {
        assert forall|e: Entry| !es.contains(e) by {}
    }
}

/// Two lists that hold the same entries, each code once, and whose codes ascend, are one
/// list.
pub proof fn lemma_ascending_unique(x: Seq<Entry>, y: Seq<Entry>)
    requires
        same_entries(x, y),
        distinct_keys(x),
        distinct_keys(y),
        codes_ascend(x),
        codes_ascend(y),
    ensures
        x == y,
    decreases x.len(),
{
    if x.len() == 0 {
        if y.len() > 0 {
            assert(y.contains(y[0]));
            assert(x.contains(y[0]));
        }
        assert(x =~= y);
    } else {
        let top = x.last();
        assert(x.contains(top));
        assert(y.contains(top));
        let j = choose|j: int| 0 <= j < y.len() && y[j] == top;
        let other = y.last();
        assert(y.contains(other));
        assert(x.contains(other));
        let i = choose|i: int| 0 <= i < x.len() && x[i] == other;
        if j < y.len() - 1 {
            assert(text_le(y[j].0, y[y.len() - 1].0));
            if i < x.len() - 1 {
                assert(text_le(x[i].0, x[x.len() - 1].0));
                lemma_text_le_antisymmetric(top.0, other.0);
            }
            assert(y[j].0 != y[y.len() - 1].0);
        }
        assert(other == top);
        let xs = x.drop_last();
        let ys = y.drop_last();
        assert forall|e: Entry| xs.contains(e) <==> ys.contains(e) by {
            if xs.contains(e) {
                let k = choose|k: int| 0 <= k < xs.len() && xs[k] == e;
                assert(x[k] == e);
                assert(x[k].0 != x[x.len() - 1].0);
                assert(y.contains(e));
                let m = choose|m: int| 0 <= m < y.len() && y[m] == e;
                assert(ys[m] == e);
            }
            if ys.contains(e) {
                let k = choose|k: int| 0 <= k < ys.len() && ys[k] == e;
                assert(y[k] == e);
                assert(y[k].0 != y[y.len() - 1].0);
                assert(x.contains(e));
                let m = choose|m: int| 0 <= m < x.len() && x[m] == e;
                assert(xs[m] == e);
            }
        }
        assert(distinct_keys(xs)) by {
            assert forall|a: int, b: int| 0 <= a < b < xs.len() implies (#[trigger] xs[a]).0 != (
            #[trigger] xs[b]).0 by {
                assert(x[a].0 != x[b].0);
            }
        }
        assert(distinct_keys(ys)) by {
            assert forall|a: int, b: int| 0 <= a < b < ys.len() implies (#[trigger] ys[a]).0 != (
            #[trigger] ys[b]).0 by {
                assert(y[a].0 != y[b].0);
            }
        }
        assert(codes_ascend(xs)) by {
            assert forall|a: int, b: int| 0 <= a < b < xs.len() implies text_le(
                (#[trigger] xs[a]).0,
                (#[trigger] xs[b]).0,
            ) by {
                assert(text_le(x[a].0, x[b].0));
            }
        }
        assert(codes_ascend(ys)) by {
            assert forall|a: int, b: int| 0 <= a < b < ys.len() implies text_le(
                (#[trigger] ys[a]).0,
                (#[trigger] ys[b]).0,
            ) by {
                assert(text_le(y[a].0, y[b].0));
            }
        }
        lemma_ascending_unique(xs, ys);
        assert(x =~= xs.push(top));
        assert(y =~= ys.push(other));
    }
}

/// Two lists that hold the same entries, each once, and all with one code, are one list.
pub proof fn lemma_one_code_unique(x: Seq<Entry>, y: Seq<Entry>, key: Seq<char>)
    requires
        same_entries(x, y),
        distinct_keys(x),
        distinct_keys(y),
        forall|i: int| 0 <= i < x.len() ==> (#[trigger] x[i]).0 == key,
        forall|i: int| 0 <= i < y.len() ==> (#[trigger] y[i]).0 == key,
    ensures
        x == y,
{
    if x.len() > 1 {
        assert(x[0].0 != x[1].0);
    }
    if y.len() > 1 {
        assert(y[0].0 != y[1].0);
    }
    if x.len() == 1 {
        assert(x.contains(x[0]));
        assert(y.contains(x[0]));
    }
    if y.len() == 1 {
        assert(y.contains(y[0]));
        assert(x.contains(y[0]));
    }
    if x.len() == 1 && y.len() == 1 {
        let j = choose|j: int| 0 <= j < y.len() && y[j] == x[0];
        assert(y[0] == x[0]);
    }
    assert(x =~= y);
}

/// The rates in the order in which they are shown.
pub fn in_shown_order(rates: &CurrencyMap, base_key: &String) -> (r: Vec<(String, String)>)
    ensures
        entry_texts(r@) == shown_order(rates@, base_key@),
{
    let mut first: Vec<(String, String)> = Vec::new();
    let mut second: Vec<(String, String)> = Vec::new();
    let n = rates.len();
    let mut i: usize = 0;
    proof {
        assert(entry_texts(first@) =~= with_code(rates@.take(0), base_key@));
        assert(entry_texts(second@) =~= ascending(without_code(rates@.take(0), base_key@)));
    }
    while i < n
        invariant
            i <= n,
            n == rates@.len(),
            entry_texts(first@) == with_code(rates@.take(i as int), base_key@),
            entry_texts(second@) == ascending(without_code(rates@.take(i as int), base_key@)),
        decreases n - i,
    {
        let key = rates.key(i).unwrap().clone();
        let value = rates.value(i).unwrap().clone();
        proof {
            let next = rates@.take(i + 1);
            assert(next.drop_last() == rates@.take(i as int));
            assert(next.last() == rates@[i as int]);
        }
        if key == *base_key {
            let ghost before = entry_texts(first@);
            first.push((key, value));
            proof {
                assert(entry_texts(first@) =~= before.push(rates@[i as int]));
            }
        } else {
            proof {
                let rest = without_code(rates@.take(i as int), base_key@);
                assert(rest.push(rates@[i as int]).drop_last() == rest);
            }
            place(&mut second, (key, value));
        }
        i += 1;
    }
    proof {
        assert(rates@.take(n as int) == rates@);
    }
    let ghost head = entry_texts(first@);
    let ghost tail = entry_texts(second@);
    first.append(&mut second);
    proof {
        assert(entry_texts(first@) =~= head + tail);
    }
    first
}

} // verus!
