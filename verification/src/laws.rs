//! What holds of the grammar, the calls and the replies, whatever the input.

use vstd::prelude::*;
use vstd::seq_lib::lemma_multiset_commutative;

use crate::amount::is_amount;
use crate::convert::{
    convert_args_outcome, convert_outcome, convert_query, ConvertArgsView, ConvertResponse,
    ConvertView,
};
use crate::currency::{is_code, is_kept_code, lemma_upper_code};
use crate::date::{reading_of, Date, DateFault, Timestamp};
use crate::error::Failure;
use crate::forex::answer::{api_error_text, batch_line, batch_lines, heading_stamp, ForexResponse};
use crate::forex::calls::{pair_query, rates_query, DEFAULT_BASE};
use crate::forex::grammar::{
    base_outcome, forex_outcome, is_pair, pair_outcome, shape_of, BaseView, ForexArgsView, PairView,
    Shape,
};
use crate::forex::order::{
    ascending, lemma_ascending, lemma_ascending_same, lemma_ascending_unique, lemma_codes_choose,
    lemma_codes_part, lemma_one_code_unique, same_entries, shown_order, with_code, without_code,
    Entry,
};
use crate::response::{distinct_keys, ConvertResponseData, ForexResp};
use crate::text::{
    free_of, is_space, is_word, lemma_shows_itself, lemma_shows_left, lemma_shows_right,
    lemma_split_first, lemma_split_one, lemma_trimmed_blank, lemma_trimmed_padded,
    lemma_trimmed_tidy, lemma_words_one, lemma_words_two, lower_text, shows, split_on, text_le,
    upper_text, words,
};

verus! {

/// A currency code is a word without a slash and without a semicolon.
pub proof fn lemma_code_is_plain(code: Seq<char>)
    requires
        is_code(code),
    ensures
        is_word(code),
        free_of(code, '/'),
        free_of(code, ';'),
{
}

/// Two codes with a slash between them are a pair, and one word.
pub proof fn lemma_pair_of_codes(a: Seq<char>, b: Seq<char>)
    requires
        is_code(a),
        is_code(b),
    ensures
        split_on(a + seq!['/'] + b, '/') == seq![a, b],
        is_pair(a + seq!['/'] + b),
        is_word(a + seq!['/'] + b),
{
    lemma_code_is_plain(a);
    lemma_code_is_plain(b);
    lemma_split_first(a, '/', b);
    lemma_split_one(b, '/');
    assert(seq![a] + seq![b] == seq![a, b]);
    let w = a + seq!['/'] + b;
    assert forall|i: int| 0 <= i < w.len() implies !is_space(#[trigger] w[i]) by {
        if i < 3 {
            assert(w[i] == a[i]);
        } else if i > 3 {
            assert(w[i] == b[i - 4]);
        }
    }
}

/// No word is both a pair and a code: looking for a pair first takes nothing from the
/// base currencies.
pub proof fn law_shapes_apart(word: Seq<char>)
    ensures
        !(is_pair(word) && is_code(word)),
{
    if is_code(word) {
        lemma_code_is_plain(word);
        lemma_split_one(word, '/');
    }
}

/// Two currency codes in any mix of cases, written with a slash between them, are read as
/// the lookup of that pair with both codes in upper case and without a day.
pub proof fn law_pair_in_upper_case(a: Seq<char>, b: Seq<char>)
    requires
        is_code(a),
        is_code(b),
    ensures
        pair_outcome(a + seq!['/'] + b) == Ok::<PairView, Failure>(
            PairView { left: upper_text(a), right: upper_text(b), date: None },
        ),
        forex_outcome(a + seq!['/'] + b) == Ok::<ForexArgsView, Failure>(
            ForexArgsView::SinglePair(
                PairView { left: upper_text(a), right: upper_text(b), date: None },
            ),
        ),
        is_kept_code(upper_text(a)),
        is_kept_code(upper_text(b)),
{
    let w = a + seq!['/'] + b;
    lemma_pair_of_codes(a, b);
    lemma_trimmed_tidy(w);
    lemma_words_one(w);
    lemma_upper_code(a);
    lemma_upper_code(b);
    assert(shape_of(w) == Shape::Pair);
}

/// One currency code in any mix of cases is read as the lookup of the rates of that
/// currency, with the code in upper case and without a day.
pub proof fn law_base_in_upper_case(a: Seq<char>)
    requires
        is_code(a),
    ensures
        base_outcome(a) == Ok::<BaseView, Failure>(BaseView { base: upper_text(a), date: None }),
        forex_outcome(a) == Ok::<ForexArgsView, Failure>(
            ForexArgsView::BaseRates(BaseView { base: upper_text(a), date: None }),
        ),
        is_kept_code(upper_text(a)),
{
    lemma_code_is_plain(a);
    lemma_trimmed_tidy(a);
    lemma_words_one(a);
    lemma_split_one(a, '/');
    lemma_upper_code(a);
    assert(!is_pair(a));
    assert(shape_of(a) == Shape::Base);
}

/// Arguments of white space only, the empty text among them, ask for the defaults of
/// either command: they are never an error.
pub proof fn law_blank_asks_for_defaults(raw: Seq<char>)
    requires
        forall|i: int| 0 <= i < raw.len() ==> is_space(#[trigger] raw[i]),
    ensures
        forex_outcome(raw) == Ok::<ForexArgsView, Failure>(ForexArgsView::Empty),
        convert_args_outcome(raw) == Ok::<ConvertArgsView, Failure>(ConvertArgsView::Empty),
{
    lemma_trimmed_blank(raw);
}

/// A conversion typed as code, amount, semicolon and code, with white space where the usage
/// shows it, is read as that conversion with both codes in upper case, the amount as it was
/// typed, and without a day.
pub proof fn law_convert_in_upper_case(a: Seq<char>, amount: Seq<char>, b: Seq<char>)
    requires
        is_code(a),
        is_code(b),
        is_word(amount),
        free_of(amount, ';'),
        is_amount(amount),
    ensures
        convert_outcome(a + seq![' '] + amount + seq![' ', ';', ' '] + b) == Ok::<
            ConvertView,
            Failure,
        >(
            ConvertView {
                from_currency: upper_text(a),
                from_amount: amount,
                to_currency: upper_text(b),
                date: None,
            },
        ),
{
    let from = a + seq![' '] + amount;
    let left = from + seq![' '];
    let right = seq![' '] + b;
    let raw = a + seq![' '] + amount + seq![' ', ';', ' '] + b;
    lemma_code_is_plain(a);
    lemma_code_is_plain(b);
    assert(raw == left + seq![';'] + right);
    assert(raw[0] == a[0]);
    assert(raw.last() == b[2]);
    lemma_trimmed_tidy(raw);
    assert(free_of(left, ';')) by {
        assert forall|i: int| 0 <= i < left.len() implies #[trigger] left[i] != ';' by {
            if i < 3 {
                assert(left[i] == a[i]);
            } else if 3 < i < 4 + amount.len() {
                assert(left[i] == amount[i - 4]);
            }
        }
    }
    assert(free_of(right, ';')) by {
        assert forall|i: int| 0 <= i < right.len() implies #[trigger] right[i] != ';' by {
            if i > 0 {
                assert(right[i] == b[i - 1]);
            }
        }
    }
    lemma_split_first(left, ';', right);
    lemma_split_one(right, ';');
    assert(seq![left] + seq![right] == seq![left, right]);
    assert(from[0] == a[0]);
    assert(from.last() == amount.last());
    assert(left == Seq::<char>::empty() + from + seq![' ']);
    lemma_trimmed_padded(Seq::<char>::empty(), from, seq![' ']);
    lemma_words_two(a, ' ', amount);
    assert(right == seq![' '] + b + Seq::<char>::empty());
    lemma_trimmed_padded(seq![' '], b, Seq::<char>::empty());
}

/// The call for a pair carries the pair and the day as they were asked for: the first
/// word of `from` is the left code before one unit, `to` is the right code, and the value
/// of `date` reads back as the day. The two codes with a slash between them read back as
/// the lookup of the pair.
pub proof fn law_pair_call_reads_back(p: PairView)
    requires
        p.kept(),
    ensures
        ({
            let q = pair_query(p);
            &&& q.len() == (if p.date is Some {
                3nat
            } else {
                2nat
            })
            &&& q[0].0 == "from"@
            &&& words(q[0].1) == seq![p.left, seq!['1']]
            &&& q[1] == ("to"@, p.right)
            &&& p.date matches Some(d) ==> q[2].0 == "date"@ && reading_of(q[2].1) == Ok::<
                Date,
                DateFault,
            >(d)
            &&& pair_outcome(words(q[0].1)[0] + seq!['/'] + q[1].1) == Ok::<PairView, Failure>(
                PairView { left: p.left, right: p.right, date: None },
            )
        }),
{
    reveal_strlit(" 1");
    assert(" 1"@ == seq![' ', '1']);
    assert(p.left + " 1"@ == p.left + seq![' '] + seq!['1']);
    lemma_code_is_plain(p.left);
    lemma_words_two(p.left, ' ', seq!['1']);
    law_pair_in_upper_case(p.left, p.right);
    match p.date {
        Some(d) => {
            d.lemma_sound();
        },
        None => {},
    }
}

/// The call for rates carries the base currency and the day as they were asked for: `base`,
/// where the call names it, is the code and reads back as the lookup of its rates, and the
/// value of `date` reads back as the day.
pub proof fn law_rates_call_reads_back(b: BaseView)
    requires
        b.kept(),
    ensures
        ({
            let q = rates_query(b);
            let named: nat = if lower_text(b.base) == DEFAULT_BASE@ {
                0
            } else {
                1
            };
            &&& q.len() == named + (if b.date is Some {
                1nat
            } else {
                0nat
            })
            &&& named == 1 ==> q[0] == ("base"@, b.base) && base_outcome(q[0].1) == Ok::<
                BaseView,
                Failure,
            >(BaseView { base: b.base, date: None })
            &&& b.date matches Some(d) ==> q[named as int].0 == "date"@ && reading_of(
                q[named as int].1,
            ) == Ok::<Date, DateFault>(d)
        }),
{
    law_base_in_upper_case(b.base);
    match b.date {
        Some(d) => {
            d.lemma_sound();
        },
        None => {},
    }
}

/// The call for a conversion carries the request as it was asked for: the words of `from`
/// are the source code and the amount, `to` is the target code, and the value of `date`
/// reads back as the day. `from` and `to` with a semicolon between them read back as the
/// conversion.
pub proof fn law_convert_call_reads_back(c: ConvertView)
    requires
        c.kept(),
    ensures
        ({
            let q = convert_query(c);
            &&& q.len() == (if c.date is Some {
                3nat
            } else {
                2nat
            })
            &&& q[0].0 == "from"@
            &&& words(q[0].1) == seq![c.from_currency, c.from_amount]
            &&& q[1] == ("to"@, c.to_currency)
            &&& c.date matches Some(d) ==> q[2].0 == "date"@ && reading_of(q[2].1) == Ok::<
                Date,
                DateFault,
            >(d)
            &&& convert_outcome(q[0].1 + seq![' ', ';', ' '] + q[1].1) == Ok::<
                ConvertView,
                Failure,
            >(
                ConvertView {
                    from_currency: c.from_currency,
                    from_amount: c.from_amount,
                    to_currency: c.to_currency,
                    date: None,
                },
            )
        }),
{
    reveal_strlit(" ");
    assert(" "@ == seq![' ']);
    lemma_code_is_plain(c.from_currency);
    lemma_words_two(c.from_currency, ' ', c.from_amount);
    law_convert_in_upper_case(c.from_currency, c.from_amount, c.to_currency);
    match c.date {
        Some(d) => {
            d.lemma_sound();
        },
        None => {},
    }
}

/// The error of an answer occurs in what is shown for it.
pub proof fn lemma_api_error_shown(error: Seq<char>)
    ensures
        shows(api_error_text(error), error),
{
    lemma_shows_itself(error);
    lemma_shows_right("api error: "@, error, error);
}

/// The error of every answer of a list occurs in the lines of the list.
pub proof fn lemma_batch_errors_shown(rs: Seq<ForexResp<ConvertResponseData>>, i: int)
    requires
        0 <= i < rs.len(),
        rs[i].error is Some,
    ensures
        shows(batch_lines(rs), rs[i].error.unwrap()@),
    decreases rs.len(),
{
    let e = rs[i].error.unwrap()@;
    if i == rs.len() - 1 {
        lemma_shows_itself(e);
        lemma_shows_right("\nerror: "@, e, e);
        lemma_shows_right(batch_lines(rs.drop_last()), batch_line(rs.last()), e);
    } else {
        assert(rs.drop_last()[i] == rs[i]);
        lemma_batch_errors_shown(rs.drop_last(), i);
        lemma_shows_left(batch_lines(rs.drop_last()), batch_line(rs.last()), e);
    }
}

/// Whatever an answer holds besides, the reply to a forex command shows the error of
/// every answer that has one.
pub proof fn law_error_is_shown(response: ForexResponse, now: Timestamp)
    ensures
        match response {
            ForexResponse::EmptyArgResponse(rs) => forall|i: int|
                0 <= i < rs@.len() && (#[trigger] rs@[i]).error is Some ==> shows(
                    response.text(now),
                    rs@[i].error.unwrap()@,
                ),
            ForexResponse::SinglePairArgResponse(r) => r.error matches Some(e) ==> response.text(
                now,
            ) == api_error_text(e@) && shows(response.text(now), e@),
            ForexResponse::BaseRatesResponse(r) => r.error matches Some(e) ==> response.text(now)
                == api_error_text(e@) && shows(response.text(now), e@),
        },
{
    match response {
        ForexResponse::EmptyArgResponse(rs) => {
            assert forall|i: int|
                0 <= i < rs@.len() && (#[trigger] rs@[i]).error is Some implies shows(
                response.text(now),
                rs@[i].error.unwrap()@,
            ) by {
                lemma_batch_errors_shown(rs@, i);
                lemma_shows_right(
                    "Forex data on "@ + heading_stamp(rs@, now).text() + ":"@,
                    batch_lines(rs@),
                    rs@[i].error.unwrap()@,
                );
            }
        },
        ForexResponse::SinglePairArgResponse(r) => {
            if r.error is Some {
                lemma_api_error_shown(r.error.unwrap()@);
            }
        },
        ForexResponse::BaseRatesResponse(r) => {
            if r.error is Some {
                lemma_api_error_shown(r.error.unwrap()@);
            }
        },
    }
}

/// Whatever an answer holds besides, the reply to a convert command shows its error.
pub proof fn law_conversion_error_is_shown(response: ConvertResponse)
    ensures
        match response {
            ConvertResponse::Single(r) => r.error matches Some(e) ==> response.text()
                == api_error_text(e@) && shows(response.text(), e@),
        },
{
    match response {
        ConvertResponse::Single(r) => {
            if r.error is Some {
                lemma_api_error_shown(r.error.unwrap()@);
            }
        },
    }
}

/// The rates are shown each once: first those of the base currency, then the others from
/// the least code to the greatest.
pub proof fn law_rates_order(es: Seq<Entry>, base_key: Seq<char>)
    ensures
        ({
            let shown = shown_order(es, base_key);
            let first = with_code(es, base_key).len();
            &&& shown.to_multiset() == es.to_multiset()
            &&& shown.len() == es.len()
            &&& forall|i: int| 0 <= i < first ==> (#[trigger] shown[i]).0 == base_key
            &&& forall|i: int| first <= i < shown.len() ==> (#[trigger] shown[i]).0 != base_key
            &&& forall|i: int, j: int|
                first <= i < j < shown.len() ==> text_le(
                    (#[trigger] shown[i]).0,
                    (#[trigger] shown[j]).0,
                )
        }),
{
    let head = with_code(es, base_key);
    let rest = without_code(es, base_key);
    let tail = ascending(rest);
    let shown = shown_order(es, base_key);
    lemma_codes_part(es, base_key);
    lemma_ascending(rest);
    lemma_multiset_commutative(head, tail);
    assert(shown.to_multiset() == es.to_multiset());
    vstd::seq_lib::to_multiset_len(shown);
    vstd::seq_lib::to_multiset_len(es);
    assert forall|i: int| head.len() <= i < shown.len() implies (#[trigger] shown[i]).0
        != base_key by {
        let x = tail[i - head.len()];
        assert(shown[i] == x);
        assert(tail.to_multiset().count(x) > 0) by {
            vstd::seq_lib::to_multiset_contains(tail, x);
            assert(tail.contains(x));
        }
        assert(rest.contains(x)) by {
            vstd::seq_lib::to_multiset_contains(rest, x);
        }
        let k = choose|k: int| 0 <= k < rest.len() && rest[k] == x;
        assert(rest[k].0 != base_key);
    }
    assert forall|i: int, j: int| head.len() <= i < j < shown.len() implies text_le(
        (#[trigger] shown[i]).0,
        (#[trigger] shown[j]).0,
    ) by {
        assert(shown[i] == tail[i - head.len()]);
        assert(shown[j] == tail[j - head.len()]);
    }
}

/// The codes of the call for a pair with a slash between them, and the value of `date`
/// behind them where the call has one, read back as the lookup that the call was built for.
pub proof fn law_pair_reads_back(p: PairView)
    requires
        p.kept(),
    ensures
        ({
            let q = pair_query(p);
            let codes = words(q[0].1)[0] + seq!['/'] + q[1].1;
            pair_outcome(
                match p.date {
                    Some(_) => codes + seq![' '] + q[2].1,
                    None => codes,
                },
            ) == Ok::<PairView, Failure>(p)
        }),
{
    law_pair_call_reads_back(p);
    match p.date {
        Some(d) => {
            let codes = p.left + seq!['/'] + p.right;
            let text = d.iso_text();
            let raw = codes + seq![' '] + text;
            d.lemma_sound();
            lemma_pair_of_codes(p.left, p.right);
            assert(raw[0] == p.left[0]);
            assert(raw.last() == text.last());
            lemma_trimmed_tidy(raw);
            lemma_words_two(codes, ' ', text);
        },
        None => {},
    }
}

/// The value of `base`, where the call for rates names the base currency, and the value of
/// `date` behind it where the call has one, read back as the lookup that the call was
/// built for.
pub proof fn law_rates_read_back(b: BaseView)
    requires
        b.kept(),
        lower_text(b.base) != DEFAULT_BASE@,
    ensures
        ({
            let q = rates_query(b);
            base_outcome(
                match b.date {
                    Some(_) => q[0].1 + seq![' '] + q[1].1,
                    None => q[0].1,
                },
            ) == Ok::<BaseView, Failure>(b)
        }),
{
    law_rates_call_reads_back(b);
    match b.date {
        Some(d) => {
            let text = d.iso_text();
            let raw = b.base + seq![' '] + text;
            d.lemma_sound();
            lemma_code_is_plain(b.base);
            assert(raw[0] == b.base[0]);
            assert(raw.last() == text.last());
            lemma_trimmed_tidy(raw);
            lemma_words_two(b.base, ' ', text);
        },
        None => {},
    }
}

/// The values of `from` and `to` of the call for a conversion with a semicolon between
/// them, and the value of `date` behind another semicolon where the call has one, read back
/// as the conversion that the call was built for.
pub proof fn law_convert_reads_back(c: ConvertView)
    requires
        c.kept(),
    ensures
        ({
            let q = convert_query(c);
            let request = q[0].1 + seq![' ', ';', ' '] + q[1].1;
            convert_outcome(
                match c.date {
                    Some(_) => request + seq![' ', ';', ' '] + q[2].1,
                    None => request,
                },
            ) == Ok::<ConvertView, Failure>(c)
        }),
{
    law_convert_call_reads_back(c);
    match c.date {
        Some(d) => {
            let a = c.from_currency;
            let b = c.to_currency;
            let text = d.iso_text();
            let from = a + seq![' '] + c.from_amount;
            let first = from + seq![' '];
            let second = seq![' '] + b + seq![' '];
            let third = seq![' '] + text;
            let raw = from + seq![' ', ';', ' '] + b + seq![' ', ';', ' '] + text;
            reveal_strlit(" ");
            assert(" "@ == seq![' ']);
            d.lemma_sound();
            lemma_code_is_plain(a);
            lemma_code_is_plain(b);
            assert(raw == first + seq![';'] + (second + seq![';'] + third));
            assert(raw[0] == a[0]);
            assert(raw.last() == text.last());
            lemma_trimmed_tidy(raw);
            assert(free_of(first, ';')) by {
                assert forall|i: int| 0 <= i < first.len() implies #[trigger] first[i] != ';' by {
                    if i < 3 {
                        assert(first[i] == a[i]);
                    } else if 3 < i < 4 + c.from_amount.len() {
                        assert(first[i] == c.from_amount[i - 4]);
                    }
                }
            }
            assert(free_of(second, ';')) by {
                assert forall|i: int| 0 <= i < second.len() implies #[trigger] second[i]
                    != ';' by {
                    if 0 < i < 4 {
                        assert(second[i] == b[i - 1]);
                    }
                }
            }
            assert(free_of(third, ';')) by {
                assert forall|i: int| 0 <= i < third.len() implies #[trigger] third[i] != ';' by {
                    if i > 0 {
                        assert(third[i] == text[i - 1]);
                    }
                }
            }
            lemma_split_first(first, ';', second + seq![';'] + third);
            lemma_split_first(second, ';', third);
            lemma_split_one(third, ';');
            assert(seq![first] + (seq![second] + seq![third]) == seq![first, second, third]);
            assert(from[0] == a[0]);
            assert(from.last() == c.from_amount.last());
            assert(first == Seq::<char>::empty() + from + seq![' ']);
            lemma_trimmed_padded(Seq::<char>::empty(), from, seq![' ']);
            lemma_words_two(a, ' ', c.from_amount);
            lemma_trimmed_padded(seq![' '], b, seq![' ']);
            assert(third == seq![' '] + text + Seq::<char>::empty());
            lemma_trimmed_padded(seq![' '], text, Seq::<char>::empty());
        },
        None => {},
    }
}

/// The order in which rates are shown does not depend on the order in which the rates
/// were handed over: two lists of the same rates, each code once, are shown alike.
pub proof fn law_rates_order_is_one(a: Seq<Entry>, b: Seq<Entry>, base_key: Seq<char>)
    requires
        same_entries(a, b),
        distinct_keys(a),
        distinct_keys(b),
    ensures
        shown_order(a, base_key) == shown_order(b, base_key),
{
    lemma_codes_choose(a, base_key);
    lemma_codes_choose(b, base_key);
    lemma_codes_part(a, base_key);
    lemma_codes_part(b, base_key);
    assert(same_entries(with_code(a, base_key), with_code(b, base_key)));
    lemma_one_code_unique(with_code(a, base_key), with_code(b, base_key), base_key);
    let x = without_code(a, base_key);
    let y = without_code(b, base_key);
    assert(same_entries(x, y));
    lemma_ascending_same(x);
    lemma_ascending_same(y);
    lemma_ascending(x);
    lemma_ascending(y);
    assert(same_entries(ascending(x), ascending(y))) by {
        assert forall|e: Entry| ascending(x).contains(e) <==> ascending(y).contains(e) by {
            assert(ascending(x).contains(e) <==> x.contains(e));
            assert(ascending(y).contains(e) <==> y.contains(e));
        }
    }
    lemma_ascending_unique(ascending(x), ascending(y));
}

} // verus!
