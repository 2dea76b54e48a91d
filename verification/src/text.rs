//! Characters and character sequences: the classes and cuts the argument grammar is built from.

use vstd::prelude::*;
use vstd::string::StringExecFns;

verus! {

/// `String::push` appends one character.
pub assume_specification[ String::push ](s: &mut String, c: char)
    ensures
        final(s)@ == old(s)@.push(c),
;

/// An ASCII letter.
pub open spec fn is_letter(c: char) -> bool {
    ('a' <= c && c <= 'z') || ('A' <= c && c <= 'Z')
}

/// An ASCII digit.
pub open spec fn is_digit(c: char) -> bool {
    '0' <= c && c <= '9'
}

/// A character with the Unicode property `White_Space`.
pub open spec fn is_space(c: char) -> bool {
    let n = c as u32;
    (0x09 <= n && n <= 0x0d) || n == 0x20 || n == 0x85 || n == 0xa0 || n == 0x1680 || (0x2000 <= n
        && n <= 0x200a) || n == 0x2028 || n == 0x2029 || n == 0x202f || n == 0x205f || n == 0x3000
}

/// The upper-case form of an ASCII letter; any other character as it is.
pub open spec fn upper_of(c: char) -> char {
    if 'a' <= c && c <= 'z' {
        ((c as u8) - 32) as char
    } else {
        c
    }
}

/// The lower-case form of an ASCII letter; any other character as it is.
pub open spec fn lower_of(c: char) -> char {
    if 'A' <= c && c <= 'Z' {
        ((c as u8) + 32) as char
    } else {
        c
    }
}

/// `s` with its ASCII letters in upper case.
pub open spec fn upper_text(s: Seq<char>) -> Seq<char> {
    Seq::new(s.len(), |i: int| upper_of(s[i]))
}

/// `s` with its ASCII letters in lower case.
pub open spec fn lower_text(s: Seq<char>) -> Seq<char> {
    Seq::new(s.len(), |i: int| lower_of(s[i]))
}

pub fn letter(c: char) -> (r: bool)
    ensures
        r == is_letter(c),
{
    ('a' <= c && c <= 'z') || ('A' <= c && c <= 'Z')
}

pub fn space(c: char) -> (r: bool)
    ensures
        r == is_space(c),
{
    let n: u32 = c as u32;
    (0x09 <= n && n <= 0x0d) || n == 0x20 || n == 0x85 || n == 0xa0 || n == 0x1680 || (0x2000 <= n
        && n <= 0x200a) || n == 0x2028 || n == 0x2029 || n == 0x202f || n == 0x205f || n == 0x3000
}

pub fn upper(c: char) -> (r: char)
    ensures
        r == upper_of(c),
{
    if 'a' <= c && c <= 'z' {
        ((c as u8) - 32) as char
    } else {
        c
    }
}

pub fn lower(c: char) -> (r: char)
    ensures
        r == lower_of(c),
{
    if 'A' <= c && c <= 'Z' {
        ((c as u8) + 32) as char
    } else {
        c
    }
}

/// The characters of `s`, one by one.
pub fn chars_of(s: &str) -> (v: Vec<char>)
    ensures
        v@ == s@,
{
    let mut v: Vec<char> = Vec::new();
    for c in it: s.chars()
        invariant
            v@ == it.seq().take(it.index() as int),
            it.seq() == s@,
    {
        v.push(c);
    }
    v
}

/// The string made of `v`'s characters.
pub fn string_of(v: &Vec<char>) -> (s: String)
    ensures
        s@ == v@,
{
    let mut s = String::new();
    let mut i: usize = 0;
    while i < v.len()
        invariant
            i <= v.len(),
            s@ == v@.take(i as int),
        decreases v.len() - i,
    {
        s.push(v[i]);
        i += 1;
    }
    s
}

/// `v` with its ASCII letters in upper case.
pub fn to_upper(v: &Vec<char>) -> (r: Vec<char>)
    ensures
        r@ == upper_text(v@),
{
    let mut r: Vec<char> = Vec::new();
    let mut i: usize = 0;
    while i < v.len()
        invariant
            i <= v.len(),
            r@ == upper_text(v@).take(i as int),
        decreases v.len() - i,
    {
        r.push(upper(v[i]));
        i += 1;
    }
    r
}

/// `v` with its ASCII letters in lower case.
pub fn to_lower(v: &Vec<char>) -> (r: Vec<char>)
    ensures
        r@ == lower_text(v@),
{
    let mut r: Vec<char> = Vec::new();
    let mut i: usize = 0;
    while i < v.len()
        invariant
            i <= v.len(),
            r@ == lower_text(v@).take(i as int),
        decreases v.len() - i,
    {
        r.push(lower(v[i]));
        i += 1;
    }
    r
}

/// The characters with the property `White_Space`, as a predicate.
pub open spec fn spaces() -> spec_fn(char) -> bool {
    |c: char| is_space(c)
}

/// The characters without the property `White_Space`, as a predicate.
pub open spec fn non_spaces() -> spec_fn(char) -> bool {
    |c: char| !is_space(c)
}

/// The characters other than `sep`, as a predicate.
pub open spec fn other_than(sep: char) -> spec_fn(char) -> bool {
    |c: char| c != sep
}

/// Length of the longest prefix of `s` whose characters all satisfy `p`.
pub open spec fn run(s: Seq<char>, p: spec_fn(char) -> bool) -> nat
    decreases s.len(),
{
    if s.len() > 0 && p(s[0]) {
        1 + run(s.drop_first(), p)
    } else {
        0
    }
}

/// Length of the longest suffix of `s` whose characters all satisfy `p`.
pub open spec fn run_back(s: Seq<char>, p: spec_fn(char) -> bool) -> nat
    decreases s.len(),
{
    if s.len() > 0 && p(s.last()) {
        1 + run_back(s.drop_last(), p)
    } else {
        0
    }
}

/// `s` without its leading white space.
pub open spec fn trim_start(s: Seq<char>) -> Seq<char> {
    s.skip(run(s, spaces()) as int)
}

/// `s` without its trailing white space.
pub open spec fn trim_end(s: Seq<char>) -> Seq<char> {
    s.take(s.len() - run_back(s, spaces()))
}

/// `s` without its leading and trailing white space.
pub open spec fn trimmed(s: Seq<char>) -> Seq<char> {
    trim_end(trim_start(s))
}

/// The pieces of `s` between the occurrences of `sep`: one more than there are occurrences.
pub open spec fn split_on(s: Seq<char>, sep: char) -> Seq<Seq<char>>
    decreases s.len(),
{
    let k = run(s, other_than(sep));
    if k >= s.len() {
        seq![s]
    } else {
        seq![s.take(k as int)] + split_on(s.skip(k as int + 1), sep)
    }
}

/// The maximal runs of characters of `s` that are not white space, in order.
pub open spec fn words(s: Seq<char>) -> Seq<Seq<char>>
    decreases s.len(),
    via words_end
{
    let t = trim_start(s);
    if t.len() == 0 {
        Seq::<Seq<char>>::empty()
    } else {
        let n = run(t, non_spaces()) as int;
        seq![t.take(n)] + words(t.skip(n))
    }
}

/// A prefix of `k` characters that satisfy `p`, ended by the end of `s` or by a character
/// that does not, is the run of `p` in `s`.
pub proof fn lemma_run(s: Seq<char>, p: spec_fn(char) -> bool, k: nat)
    requires
        k <= s.len(),
        forall|i: int| 0 <= i < k ==> p(#[trigger] s[i]),
        k == s.len() || !p(s[k as int]),
    ensures
        run(s, p) == k,
    decreases k,
{
    if k > 0 {
        let t = s.drop_first();
        assert forall|i: int| 0 <= i < k - 1 implies p(#[trigger] t[i]) by {
            assert(t[i] == s[i + 1]);
        }
        lemma_run(t, p, (k - 1) as nat);
    }
}

/// The same for a suffix.
pub proof fn lemma_run_back(s: Seq<char>, p: spec_fn(char) -> bool, k: nat)
    requires
        k <= s.len(),
        forall|i: int| s.len() - k <= i < s.len() ==> p(#[trigger] s[i]),
        k == s.len() || !p(s[s.len() - k - 1]),
    ensures
        run_back(s, p) == k,
    decreases k,
{
    if k > 0 {
        let t = s.drop_last();
        assert forall|i: int| t.len() - (k - 1) <= i < t.len() implies p(#[trigger] t[i]) by {
            assert(t[i] == s[i]);
        }
        lemma_run_back(t, p, (k - 1) as nat);
    }
}

/// A run is no longer than its sequence, covers only characters that satisfy `p`, and ends
/// where the sequence ends or `p` fails.
pub proof fn lemma_run_is(s: Seq<char>, p: spec_fn(char) -> bool)
    ensures
        run(s, p) <= s.len(),
        forall|i: int| 0 <= i < run(s, p) ==> p(#[trigger] s[i]),
        run(s, p) == s.len() || !p(s[run(s, p) as int]),
    decreases s.len(),
{
    if s.len() > 0 && p(s[0]) {
        let t = s.drop_first();
        lemma_run_is(t, p);
        assert forall|i: int| 0 <= i < run(s, p) implies p(#[trigger] s[i]) by {
            if i > 0 {
                assert(s[i] == t[i - 1]);
            }
        }
    }
}

/// The same for a suffix.
pub proof fn lemma_run_back_is(s: Seq<char>, p: spec_fn(char) -> bool)
    ensures
        run_back(s, p) <= s.len(),
        forall|i: int| s.len() - run_back(s, p) <= i < s.len() ==> p(#[trigger] s[i]),
        run_back(s, p) == s.len() || !p(s[s.len() - run_back(s, p) - 1]),
    decreases s.len(),
{
    if s.len() > 0 && p(s.last()) {
        let t = s.drop_last();
        lemma_run_back_is(t, p);
        assert forall|i: int| s.len() - run_back(s, p) <= i < s.len() implies p(
            #[trigger] s[i],
        ) by {
            if i < s.len() - 1 {
                assert(s[i] == t[i]);
            }
        }
    }
}

#[via_fn]
proof fn words_end(s: Seq<char>) {
    let t = trim_start(s);
    lemma_run_is(s, spaces());
    lemma_run_is(t, non_spaces());
    if t.len() > 0 {
        assert(t[0] == s[run(s, spaces()) as int]);
        assert(!spaces()(t[0]));
        assert(non_spaces()(t[0]));
    }
}

/// The texts of a list of character vectors.
pub open spec fn texts(v: Seq<Vec<char>>) -> Seq<Seq<char>> {
    Seq::new(v.len(), |i: int| v[i]@)
}

/// The texts of a list of pairs of strings.
pub open spec fn entry_texts(v: Seq<(String, String)>) -> Seq<(Seq<char>, Seq<char>)> {
    Seq::new(v.len(), |i: int| (v[i].0@, v[i].1@))
}

/// Index of the first character at or after `from` that is not white space, or the length.
fn skip_spaces(v: &Vec<char>, from: usize) -> (r: usize)
    requires
        from <= v.len(),
    ensures
        r == from + run(v@.skip(from as int), spaces()),
        from <= r <= v.len(),
{
    let mut i: usize = from;
    while i < v.len() && space(v[i])
        invariant
            from <= i <= v.len(),
            forall|k: int| from <= k < i ==> is_space(#[trigger] v@[k]),
        decreases v.len() - i,
    {
        i += 1;
    }
    proof {
        let t = v@.skip(from as int);
        assert forall|k: int| 0 <= k < i - from implies spaces()(#[trigger] t[k]) by {
            assert(t[k] == v@[from + k]);
        }
        lemma_run(t, spaces(), (i - from) as nat);
    }
    i
}

/// Index of the first white space at or after `from`, or the length.
fn skip_word(v: &Vec<char>, from: usize) -> (r: usize)
    requires
        from <= v.len(),
    ensures
        r == from + run(v@.skip(from as int), non_spaces()),
        from <= r <= v.len(),
{
    let mut i: usize = from;
    while i < v.len() && !space(v[i])
        invariant
            from <= i <= v.len(),
            forall|k: int| from <= k < i ==> !is_space(#[trigger] v@[k]),
        decreases v.len() - i,
    {
        i += 1;
    }
    proof {
        let t = v@.skip(from as int);
        assert forall|k: int| 0 <= k < i - from implies non_spaces()(#[trigger] t[k]) by {
            assert(t[k] == v@[from + k]);
        }
        lemma_run(t, non_spaces(), (i - from) as nat);
    }
    i
}

/// Index of the first `sep` at or after `from`, or the length.
fn seek(v: &Vec<char>, from: usize, sep: char) -> (r: usize)
    requires
        from <= v.len(),
    ensures
        r == from + run(v@.skip(from as int), other_than(sep)),
        from <= r <= v.len(),
{
    let mut i: usize = from;
    while i < v.len() && v[i] != sep
        invariant
            from <= i <= v.len(),
            forall|k: int| from <= k < i ==> #[trigger] v@[k] != sep,
        decreases v.len() - i,
    {
        i += 1;
    }
    proof {
        let t = v@.skip(from as int);
        assert forall|k: int| 0 <= k < i - from implies other_than(sep)(#[trigger] t[k]) by {
            assert(t[k] == v@[from + k]);
        }
        lemma_run(t, other_than(sep), (i - from) as nat);
    }
    i
}

/// Index behind the last character before `to` that is not white space, or `from`.
fn skip_spaces_back(v: &Vec<char>, from: usize, to: usize) -> (r: usize)
    requires
        from <= to <= v.len(),
    ensures
        r == to - run_back(v@.subrange(from as int, to as int), spaces()),
        from <= r <= to,
{
    let mut j: usize = to;
    while j > from && space(v[j - 1])
        invariant
            from <= j <= to <= v.len(),
            forall|k: int| j <= k < to ==> is_space(#[trigger] v@[k]),
        decreases j,
    {
        j -= 1;
    }
    proof {
        let t = v@.subrange(from as int, to as int);
        assert forall|k: int| t.len() - (to - j) <= k < t.len() implies spaces()(
            #[trigger] t[k],
        ) by {
            assert(t[k] == v@[from + k]);
        }
        lemma_run_back(t, spaces(), (to - j) as nat);
    }
    j
}

/// The characters of `v` from `from` up to `to`.
fn slice(v: &Vec<char>, from: usize, to: usize) -> (r: Vec<char>)
    requires
        from <= to <= v.len(),
    ensures
        r@ == v@.subrange(from as int, to as int),
{
    let mut r: Vec<char> = Vec::new();
    let mut i: usize = from;
    while i < to
        invariant
            from <= i <= to <= v.len(),
            r@ == v@.subrange(from as int, i as int),
        decreases to - i,
    {
        r.push(v[i]);
        i += 1;
    }
    r
}

/// `v` without its leading and trailing white space.
pub fn trim(v: &Vec<char>) -> (r: Vec<char>)
    ensures
        r@ == trimmed(v@),
{
    let a = skip_spaces(v, 0);
    let b = skip_spaces_back(v, a, v.len());
    proof {
        assert(v@.skip(0) == v@);
        assert(v@.subrange(a as int, v.len() as int) == v@.skip(a as int));
        let t = v@.skip(a as int);
        assert(t.take(b - a) == v@.subrange(a as int, b as int));
    }
    slice(v, a, b)
}

/// The pieces of `v` between the occurrences of `sep`.
pub fn split(v: &Vec<char>, sep: char) -> (r: Vec<Vec<char>>)
    ensures
        texts(r@) == split_on(v@, sep),
{
    let mut r: Vec<Vec<char>> = Vec::new();
    let mut i: usize = 0;
    proof {
        assert(v@.skip(0) == v@);
        assert(texts(r@) + split_on(v@, sep) == split_on(v@, sep));
    }
    loop
        invariant_except_break
            i <= v.len(),
            split_on(v@, sep) == texts(r@) + split_on(v@.skip(i as int), sep),
        ensures
            texts(r@) == split_on(v@, sep),
        decreases v.len() - i,
    {
        let j = seek(v, i, sep);
        let piece = slice(v, i, j);
        proof {
            let t = v@.skip(i as int);
            assert(piece@ == t.take(j - i));
            assert(texts(r@.push(piece)) == texts(r@) + seq![piece@]);
            if j < v.len() {
                assert(t.skip(j - i + 1) == v@.skip(j + 1));
            } else {
                assert(t.take(j - i) == t);
            }
        }
        r.push(piece);
        if j >= v.len() {
            break;
        }
        i = j + 1;
    }
    r
}

/// The maximal runs of characters of `v` that are not white space, in order.
pub fn split_words(v: &Vec<char>) -> (r: Vec<Vec<char>>)
    ensures
        texts(r@) == words(v@),
{
    let mut r: Vec<Vec<char>> = Vec::new();
    let mut i: usize = 0;
    proof {
        assert(v@.skip(0) == v@);
        assert(texts(r@) + words(v@) == words(v@));
    }
    loop
        invariant_except_break
            i <= v.len(),
            words(v@) == texts(r@) + words(v@.skip(i as int)),
        ensures
            texts(r@) == words(v@),
        decreases v.len() - i,
    {
        let a = skip_spaces(v, i);
        if a >= v.len() {
            proof {
                assert(texts(r@) + Seq::<Seq<char>>::empty() == texts(r@));
            }
            break;
        }
        let b = skip_word(v, a);
        let piece = slice(v, a, b);
        proof {
            let s = v@.skip(i as int);
            let t = s.skip(a - i);
            lemma_run_is(s, spaces());
            assert(t == v@.skip(a as int));
            assert(t[0] == s[a - i]);
            assert(non_spaces()(t[0]));
            assert(piece@ == t.take(b - a));
            assert(t.skip(b - a) == v@.skip(b as int));
            assert(texts(r@.push(piece)) == texts(r@) + seq![piece@]);
        }
        r.push(piece);
        i = b;
    }
    r
}

/// Whether `a` comes before `b` or equals it in the order of strings: by the first character
/// in which they differ, a proper prefix first.
pub open spec fn text_le(a: Seq<char>, b: Seq<char>) -> bool
    decreases a.len(),
{
    if a.len() == 0 {
        true
    } else if b.len() == 0 {
        false
    } else if a[0] != b[0] {
        a[0] < b[0]
    } else {
        text_le(a.drop_first(), b.drop_first())
    }
}

/// Whether `a` comes before `b` or equals it in the order of strings.
pub fn le(a: &str, b: &str) -> (r: bool)
    ensures
        r == text_le(a@, b@),
{
    let x = chars_of(a);
    let y = chars_of(b);
    let mut i: usize = 0;
    proof {
        assert(x@.skip(0) == x@);
        assert(y@.skip(0) == y@);
    }
    loop
        invariant
            i <= x.len(),
            i <= y.len(),
            x@ == a@,
            y@ == b@,
            text_le(a@, b@) == text_le(x@.skip(i as int), y@.skip(i as int)),
        decreases x.len() - i,
    {
        if i >= x.len() {
            return true;
        }
        if i >= y.len() {
            return false;
        }
        if x[i] != y[i] {
            return x[i] < y[i];
        }
        proof {
            assert(x@.skip(i as int).drop_first() == x@.skip(i + 1));
            assert(y@.skip(i as int).drop_first() == y@.skip(i + 1));
        }
        i += 1;
    }
}

/// `a` followed by `b`.
pub fn join(a: &str, b: &str) -> (r: String)
    ensures
        r@ == a@ + b@,
{
    String::from_str(a).concat(b)
}

/// Whether no character of `s` is white space.
pub open spec fn no_space(s: Seq<char>) -> bool {
    forall|i: int| 0 <= i < s.len() ==> !is_space(#[trigger] s[i])
}

/// Whether no character of `s` is `sep`.
pub open spec fn free_of(s: Seq<char>, sep: char) -> bool {
    forall|i: int| 0 <= i < s.len() ==> #[trigger] s[i] != sep
}

/// Whether `s` is a word: at least one character, none of them white space.
pub open spec fn is_word(s: Seq<char>) -> bool {
    s.len() > 0 && no_space(s)
}

/// A text that neither starts nor ends with white space is its own trimmed form.
pub proof fn lemma_trimmed_tidy(s: Seq<char>)
    requires
        s.len() == 0 || (!is_space(s[0]) && !is_space(s.last())),
    ensures
        trimmed(s) == s,
{
    lemma_run(s, spaces(), 0);
    assert(s.skip(0) == s);
    lemma_run_back(s, spaces(), 0);
    assert(s.take(s.len() as int) == s);
}

/// A text of white space only has an empty trimmed form.
pub proof fn lemma_trimmed_blank(s: Seq<char>)
    requires
        forall|i: int| 0 <= i < s.len() ==> is_space(#[trigger] s[i]),
    ensures
        trimmed(s).len() == 0,
{
    lemma_run(s, spaces(), s.len());
    let t = s.skip(s.len() as int);
    assert(t.len() == 0);
    lemma_run_back(t, spaces(), 0);
}

/// A word is the only word of itself.
pub proof fn lemma_words_one(s: Seq<char>)
    requires
        is_word(s),
    ensures
        words(s) == seq![s],
{
    lemma_run(s, spaces(), 0);
    assert(s.skip(0) == s);
    assert forall|i: int| 0 <= i < s.len() implies non_spaces()(#[trigger] s[i]) by {}
    lemma_run(s, non_spaces(), s.len());
    assert(s.take(s.len() as int) == s);
    let rest = s.skip(s.len() as int);
    assert(rest.len() == 0);
    assert(words(rest) == Seq::<Seq<char>>::empty());
    assert(seq![s] + Seq::<Seq<char>>::empty() == seq![s]);
}

/// Two words with one white space between them are the words of the whole.
pub proof fn lemma_words_two(a: Seq<char>, gap: char, b: Seq<char>)
    requires
        is_word(a),
        is_space(gap),
        is_word(b),
    ensures
        words(a + seq![gap] + b) == seq![a, b],
{
    let s = a + seq![gap] + b;
    lemma_run(s, spaces(), 0);
    assert(s.skip(0) == s);
    assert forall|i: int| 0 <= i < a.len() implies non_spaces()(#[trigger] s[i]) by {
        assert(s[i] == a[i]);
    }
    assert(s[a.len() as int] == gap);
    lemma_run(s, non_spaces(), a.len());
    assert(s.take(a.len() as int) == a);
    let rest = s.skip(a.len() as int);
    assert(rest == seq![gap] + b);
    assert(rest[0] == gap);
    assert(rest[1] == b[0]);
    lemma_run(rest, spaces(), 1);
    assert(rest.skip(1) == b);
    lemma_words_one(b);
    lemma_run(b, spaces(), 0);
    assert(b.skip(0) == b);
    assert(words(rest) == seq![b]) by {
        let t = rest.skip(1);
        assert forall|i: int| 0 <= i < b.len() implies non_spaces()(#[trigger] t[i]) by {}
        lemma_run(t, non_spaces(), b.len());
        assert(t.take(b.len() as int) == b);
        assert(words(t.skip(b.len() as int)) == Seq::<Seq<char>>::empty());
        assert(seq![b] + Seq::<Seq<char>>::empty() == seq![b]);
    }
    assert(seq![a] + seq![b] == seq![a, b]);
}

/// A text without `sep` is the only piece of itself.
pub proof fn lemma_split_one(s: Seq<char>, sep: char)
    requires
        free_of(s, sep),
    ensures
        split_on(s, sep) == seq![s],
{
    assert forall|i: int| 0 <= i < s.len() implies other_than(sep)(#[trigger] s[i]) by {}
    lemma_run(s, other_than(sep), s.len());
}

/// A piece without `sep`, then `sep`, then a rest: the pieces are the piece and the pieces
/// of the rest.
pub proof fn lemma_split_first(a: Seq<char>, sep: char, rest: Seq<char>)
    requires
        free_of(a, sep),
    ensures
        split_on(a + seq![sep] + rest, sep) == seq![a] + split_on(rest, sep),
{
    let s = a + seq![sep] + rest;
    assert forall|i: int| 0 <= i < a.len() implies other_than(sep)(#[trigger] s[i]) by {
        assert(s[i] == a[i]);
    }
    assert(s[a.len() as int] == sep);
    lemma_run(s, other_than(sep), a.len());
    assert(s.take(a.len() as int) == a);
    assert(s.skip(a.len() as int + 1) == rest);
}

/// White space, a text that neither starts nor ends with white space, and white space
/// again: the trimmed form of the whole is the text in the middle.
pub proof fn lemma_trimmed_padded(before: Seq<char>, s: Seq<char>, after: Seq<char>)
    requires
        forall|i: int| 0 <= i < before.len() ==> is_space(#[trigger] before[i]),
        forall|i: int| 0 <= i < after.len() ==> is_space(#[trigger] after[i]),
        s.len() == 0 || (!is_space(s[0]) && !is_space(s.last())),
    ensures
        trimmed(before + s + after) == s,
{
    let w = before + s + after;
    if s.len() == 0 {
        assert forall|i: int| 0 <= i < w.len() implies is_space(#[trigger] w[i]) by {
            if i < before.len() {
                assert(w[i] == before[i]);
            } else {
                assert(w[i] == after[i - before.len()]);
            }
        }
        lemma_trimmed_blank(w);
        assert(trimmed(w) =~= s);
    } else {
        assert forall|i: int| 0 <= i < before.len() implies spaces()(#[trigger] w[i]) by {
            assert(w[i] == before[i]);
        }
        assert(w[before.len() as int] == s[0]);
        lemma_run(w, spaces(), before.len());
        let t = w.skip(before.len() as int);
        assert(t == s + after);
        assert forall|i: int| t.len() - after.len() <= i < t.len() implies spaces()(
            #[trigger] t[i],
        ) by {
            assert(t[i] == after[i - s.len()]);
        }
        assert(t[t.len() - after.len() - 1] == s.last());
        lemma_run_back(t, spaces(), after.len());
        assert(t.take(t.len() - after.len()) == s);
    }
}

/// The trimmed form of a text without `c` is without `c`.
pub proof fn lemma_trimmed_free(s: Seq<char>, c: char)
    requires
        free_of(s, c),
    ensures
        free_of(trimmed(s), c),
{
    lemma_run_is(s, spaces());
    let t = trim_start(s);
    lemma_run_back_is(t, spaces());
    let r = trimmed(s);
    assert forall|i: int| 0 <= i < r.len() implies #[trigger] r[i] != c by {
        assert(r[i] == s[i + run(s, spaces())]);
    }
}

/// Every word of a text is a word, and is without `c` where the text is.
pub proof fn lemma_words(s: Seq<char>, c: char)
    ensures
        forall|i: int| 0 <= i < words(s).len() ==> is_word(#[trigger] words(s)[i]),
        free_of(s, c) ==> forall|i: int|
            0 <= i < words(s).len() ==> free_of(#[trigger] words(s)[i], c),
    decreases s.len(),
{
    let a = run(s, spaces());
    let t = trim_start(s);
    lemma_run_is(s, spaces());
    if t.len() > 0 {
        let n = run(t, non_spaces()) as int;
        lemma_run_is(t, non_spaces());
        assert(t[0] == s[a as int]);
        assert(non_spaces()(t[0]));
        let first = t.take(n);
        let rest = t.skip(n);
        lemma_words(rest, c);
        assert(is_word(first)) by {
            assert forall|i: int| 0 <= i < first.len() implies !is_space(#[trigger] first[i]) by {
                assert(first[i] == t[i]);
                assert(non_spaces()(t[i]));
            }
        }
        if free_of(s, c) {
            assert forall|i: int| 0 <= i < first.len() implies #[trigger] first[i] != c by {
                assert(first[i] == s[a + i]);
            }
            assert forall|i: int| 0 <= i < rest.len() implies #[trigger] rest[i] != c by {
                assert(rest[i] == s[a + n + i]);
            }
        }
        assert forall|i: int| 0 <= i < words(s).len() implies is_word(
            #[trigger] words(s)[i],
        ) by {
            if i > 0 {
                assert(words(s)[i] == words(rest)[i - 1]);
            }
        }
        if free_of(s, c) {
            assert forall|i: int| 0 <= i < words(s).len() implies free_of(
                #[trigger] words(s)[i],
                c,
            ) by {
                if i > 0 {
                    assert(words(s)[i] == words(rest)[i - 1]);
                }
            }
        }
    }
}

/// Every piece between the occurrences of `sep` is without `sep`.
pub proof fn lemma_pieces(s: Seq<char>, sep: char)
    ensures
        split_on(s, sep).len() >= 1,
        forall|i: int| 0 <= i < split_on(s, sep).len() ==> free_of(#[trigger] split_on(s, sep)[i], sep),
    decreases s.len(),
{
    let k = run(s, other_than(sep));
    lemma_run_is(s, other_than(sep));
    if k >= s.len() {
        assert forall|i: int| 0 <= i < s.len() implies #[trigger] s[i] != sep by {
            assert(other_than(sep)(s[i]));
        }
    } else {
        let first = s.take(k as int);
        let rest = s.skip(k as int + 1);
        lemma_pieces(rest, sep);
        assert forall|i: int| 0 <= i < first.len() implies #[trigger] first[i] != sep by {
            assert(first[i] == s[i]);
            assert(other_than(sep)(s[i]));
        }
        assert forall|i: int| 0 <= i < split_on(s, sep).len() implies free_of(
            #[trigger] split_on(s, sep)[i],
            sep,
        ) by {
            if i > 0 {
                assert(split_on(s, sep)[i] == split_on(rest, sep)[i - 1]);
            }
        }
    }
}

/// Of two texts one comes before the other or equals it.
pub proof fn lemma_text_le_total(a: Seq<char>, b: Seq<char>)
    ensures
        text_le(a, b) || text_le(b, a),
    decreases a.len(),
{
    if a.len() > 0 && b.len() > 0 && a[0] == b[0] {
        lemma_text_le_total(a.drop_first(), b.drop_first());
    }
}

/// What comes before a text comes before everything that the text comes before.
pub proof fn lemma_text_le_transitive(a: Seq<char>, b: Seq<char>, c: Seq<char>)
    requires
        text_le(a, b),
        text_le(b, c),
    ensures
        text_le(a, c),
    decreases a.len(),
{
    if a.len() > 0 && b.len() > 0 && c.len() > 0 && a[0] == b[0] && b[0] == c[0] {
        lemma_text_le_transitive(a.drop_first(), b.drop_first(), c.drop_first());
    }
}

/// Two texts that come before each other are one text.
pub proof fn lemma_text_le_antisymmetric(a: Seq<char>, b: Seq<char>)
    requires
        text_le(a, b),
        text_le(b, a),
    ensures
        a == b,
    decreases a.len(),
{
    if a.len() > 0 && b.len() > 0 {
        lemma_text_le_antisymmetric(a.drop_first(), b.drop_first());
        assert(a =~= seq![a[0]] + a.drop_first());
        assert(b =~= seq![b[0]] + b.drop_first());
    } else {
        assert(a =~= b);
    }
}

/// Whether `part` occurs in `text`.
pub open spec fn shows(text: Seq<char>, part: Seq<char>) -> bool {
    exists|i: int|
        0 <= i && i + part.len() <= text.len() && #[trigger] text.subrange(i, i + part.len())
            == part
}

/// What occurs in a text occurs in that text followed by another.
pub proof fn lemma_shows_left(a: Seq<char>, b: Seq<char>, part: Seq<char>)
    requires
        shows(a, part),
    ensures
        shows(a + b, part),
{
    let i = choose|i: int|
        0 <= i && i + part.len() <= a.len() && #[trigger] a.subrange(i, i + part.len()) == part;
    assert((a + b).subrange(i, i + part.len()) == a.subrange(i, i + part.len()));
}

/// What occurs in a text occurs in that text behind another.
pub proof fn lemma_shows_right(a: Seq<char>, b: Seq<char>, part: Seq<char>)
    requires
        shows(b, part),
    ensures
        shows(a + b, part),
{
    let i = choose|i: int|
        0 <= i && i + part.len() <= b.len() && #[trigger] b.subrange(i, i + part.len()) == part;
    assert((a + b).subrange(a.len() + i, a.len() + i + part.len()) == b.subrange(
        i,
        i + part.len(),
    ));
}

/// A text occurs in itself.
pub proof fn lemma_shows_itself(part: Seq<char>)
    ensures
        shows(part, part),
{
    assert(part.subrange(0, 0 + part.len() as int) == part);
}

} // verus!
