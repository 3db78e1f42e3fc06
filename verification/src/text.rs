//! Text as sequences of characters: where a key occurs in a text, what one
//! replacement makes of it, and what is left once no occurrence remains.

use vstd::prelude::*;

verus! {

/// `key` stands in `text` at position `at`.
pub open spec fn occurs_at(text: Seq<char>, key: Seq<char>, at: int) -> bool {
    &&& 0 <= at
    &&& at + key.len() <= text.len()
    &&& text.subrange(at, at + key.len()) == key
}

/// `key` stands somewhere in `text`.
pub open spec fn occurs(text: Seq<char>, key: Seq<char>) -> bool {
    exists|at: int| occurs_at(text, key, at)
}

/// `at` is the leftmost position at which `key` stands in `text`.
pub open spec fn first_at(text: Seq<char>, key: Seq<char>, at: int) -> bool {
    &&& occurs_at(text, key, at)
    &&& forall|earlier: int| 0 <= earlier < at ==> !occurs_at(text, key, earlier)
}

/// The leftmost position at which `key` stands in `text`, where there is one.
pub open spec fn first_occurrence(text: Seq<char>, key: Seq<char>) -> int {
    choose|at: int| first_at(text, key, at)
}

/// `text` with the `len` characters from `at` on taken out and `value` put in
/// their place.
pub open spec fn spliced(text: Seq<char>, at: int, len: int, value: Seq<char>) -> Seq<char> {
    text.subrange(0, at) + value + text.subrange(at + len, text.len() as int)
}

/// `text` with its leftmost occurrence of `key` replaced by `value`; `text`
/// itself where `key` does not occur.
pub open spec fn replaced_once(text: Seq<char>, key: Seq<char>, value: Seq<char>) -> Seq<char> {
    if occurs(text, key) {
        spliced(text, first_occurrence(text, key), key.len() as int, value)
    } else {
        text
    }
}

/// `text` after `n` leftmost replacements, each made on the result of the one
/// before, so that an occurrence that a replacement brings about is found by
/// the next.
pub open spec fn replaced_times(text: Seq<char>, key: Seq<char>, value: Seq<char>, n: nat) -> Seq<
    char,
>
    decreases n,
{
    if n == 0 {
        text
    } else {
        replaced_times(replaced_once(text, key, value), key, value, (n - 1) as nat)
    }
}

/// After `n` replacements no occurrence of `key` is left.
pub open spec fn settles_within(text: Seq<char>, key: Seq<char>, value: Seq<char>, n: nat) -> bool {
    !occurs(replaced_times(text, key, value, n), key)
}

/// Replacing `key` by `value` in `text` comes to an end. It does not where
/// `key` is empty, nor where `value` holds `key` and `key` occurs in `text`.
pub open spec fn settles(text: Seq<char>, key: Seq<char>, value: Seq<char>) -> bool {
    exists|n: nat| settles_within(text, key, value, n)
}

/// What replacing `key` by `value` makes of `text` once no occurrence is left.
pub open spec fn replaced_all(text: Seq<char>, key: Seq<char>, value: Seq<char>) -> Seq<char> {
    replaced_times(text, key, value, choose|n: nat| settles_within(text, key, value, n))
}

/// The `items` in order, with `sep` between each two neighbours.
pub open spec fn joined_with(items: Seq<Seq<char>>, sep: Seq<char>) -> Seq<char>
    decreases items.len(),
{
    if items.len() == 0 {
        Seq::empty()
    } else if items.len() == 1 {
        items[0]
    } else {
        joined_with(items.drop_last(), sep) + sep + items.last()
    }
}

/// Each pair of `params`, a key and its value, can be replaced to the end in
/// turn, the first pair in `text` and each later one in the result of the one
/// before it.
pub open spec fn substitution_ends(text: Seq<char>, params: Seq<(Seq<char>, Seq<char>)>) -> bool
    decreases params.len(),
{
    params.len() == 0 || {
        &&& settles(text, params[0].0, params[0].1)
        &&& substitution_ends(replaced_all(text, params[0].0, params[0].1), params.drop_first())
    }
}

/// `text` after each pair of `params` has been replaced to the end, in turn.
pub open spec fn substituted(text: Seq<char>, params: Seq<(Seq<char>, Seq<char>)>) -> Seq<char>
    decreases params.len(),
{
    if params.len() == 0 {
        text
    } else {
        substituted(replaced_all(text, params[0].0, params[0].1), params.drop_first())
    }
}

proof fn lemma_least_occurrence(text: Seq<char>, key: Seq<char>, at: int)
    requires
        occurs_at(text, key, at),
    ensures
        exists|least: int| first_at(text, key, least),
    decreases at,
{
    if forall|earlier: int| 0 <= earlier < at ==> !occurs_at(text, key, earlier) {
        assert(first_at(text, key, at));
    } else {
        let earlier = choose|earlier: int| 0 <= earlier < at && occurs_at(text, key, earlier);
        lemma_least_occurrence(text, key, earlier);
    }
}

/// Where `key` occurs, `first_occurrence` is its leftmost position.
pub proof fn lemma_first_occurrence(text: Seq<char>, key: Seq<char>)
    requires
        occurs(text, key),
    ensures
        first_at(text, key, first_occurrence(text, key)),
{
    let at = choose|at: int| occurs_at(text, key, at);
    lemma_least_occurrence(text, key, at);
}

/// A text has one leftmost occurrence at most.
pub proof fn lemma_first_at_is_first_occurrence(text: Seq<char>, key: Seq<char>, at: int)
    requires
        first_at(text, key, at),
    ensures
        occurs(text, key),
        first_occurrence(text, key) == at,
{
    lemma_first_occurrence(text, key);
    let chosen = first_occurrence(text, key);
    if chosen < at {
        assert(!occurs_at(text, key, chosen));
    } else if at < chosen {
        assert(!occurs_at(text, key, at));
    }
}

/// A text in which `key` does not occur stays as it is.
pub proof fn lemma_settled_stays(text: Seq<char>, key: Seq<char>, value: Seq<char>, n: nat)
    requires
        !occurs(text, key),
    ensures
        replaced_times(text, key, value, n) == text,
    decreases n,
{
    if n > 0 {
        lemma_settled_stays(text, key, value, (n - 1) as nat);
    }
}

/// `n + m` replacements are `m` replacements made on the result of `n`.
pub proof fn lemma_replaced_times_add(
    text: Seq<char>,
    key: Seq<char>,
    value: Seq<char>,
    n: nat,
    m: nat,
)
    ensures
        replaced_times(text, key, value, n + m) == replaced_times(
            replaced_times(text, key, value, n),
            key,
            value,
            m,
        ),
    decreases n,
{
    if n > 0 {
        lemma_replaced_times_add(replaced_once(text, key, value), key, value, (n - 1) as nat, m);
    }
}

/// Whenever `n` replacements leave no occurrence, their result is
/// `replaced_all`: it does not depend on the `n` chosen.
pub proof fn lemma_replaced_all_is(text: Seq<char>, key: Seq<char>, value: Seq<char>, n: nat)
    requires
        settles_within(text, key, value, n),
    ensures
        settles(text, key, value),
        replaced_all(text, key, value) == replaced_times(text, key, value, n),
{
    let m = choose|m: nat| settles_within(text, key, value, m);
    if n <= m {
        let rest = (m - n) as nat;
        lemma_replaced_times_add(text, key, value, n, rest);
        lemma_settled_stays(replaced_times(text, key, value, n), key, value, rest);
    } else {
        let rest = (n - m) as nat;
        lemma_replaced_times_add(text, key, value, m, rest);
        lemma_settled_stays(replaced_times(text, key, value, m), key, value, rest);
    }
}

/// Once replacing has come to an end, `key` occurs nowhere in the result.
pub proof fn lemma_replaced_all_holds_no_key(text: Seq<char>, key: Seq<char>, value: Seq<char>)
    requires
        settles(text, key, value),
    ensures
        !occurs(replaced_all(text, key, value), key),
{
}

/// A text without `key` is its own result.
pub proof fn lemma_replaced_all_without_key(text: Seq<char>, key: Seq<char>, value: Seq<char>)
    requires
        !occurs(text, key),
    ensures
        settles(text, key, value),
        replaced_all(text, key, value) == text,
{
    assert(settles_within(text, key, value, 0));
    lemma_replaced_all_is(text, key, value, 0);
}

/// Where `key` occurs and replacing ends within `n` steps, `n` is positive,
/// and after one replacement `n - 1` steps are enough for the same result.
pub proof fn lemma_replaced_all_step(text: Seq<char>, key: Seq<char>, value: Seq<char>, n: nat)
    requires
        occurs(text, key),
        settles_within(text, key, value, n),
    ensures
        n > 0,
        settles_within(replaced_once(text, key, value), key, value, (n - 1) as nat),
        replaced_all(replaced_once(text, key, value), key, value) == replaced_all(text, key, value),
{
    lemma_replaced_all_is(text, key, value, n);
    lemma_replaced_all_is(replaced_once(text, key, value), key, value, (n - 1) as nat);
}

/// An empty key stands at the start of every text, so replacing it never ends.
pub proof fn lemma_empty_key_never_settles(text: Seq<char>, key: Seq<char>, value: Seq<char>)
    requires
        key.len() == 0,
    ensures
        !settles(text, key, value),
{
    assert forall|n: nat| !settles_within(text, key, value, n) by {
        let after = replaced_times(text, key, value, n);
        assert(after.subrange(0, 0) =~= key);
        assert(occurs_at(after, key, 0));
    }
}

proof fn lemma_key_stays(text: Seq<char>, key: Seq<char>, value: Seq<char>, n: nat)
    requires
        occurs(value, key),
        occurs(text, key),
    ensures
        occurs(replaced_times(text, key, value, n), key),
    decreases n,
{
    if n > 0 {
        lemma_first_occurrence(text, key);
        let at = first_occurrence(text, key);
        let inner = choose|inner: int| occurs_at(value, key, inner);
        let next = replaced_once(text, key, value);
        assert(next.subrange(at + inner, at + inner + key.len()) =~= value.subrange(
            inner,
            inner + key.len(),
        ));
        assert(occurs_at(next, key, at + inner));
        lemma_key_stays(next, key, value, (n - 1) as nat);
    }
}

/// A value that holds its key brings the key back with each replacement, so
/// replacing never ends in a text in which the key occurs.
pub proof fn lemma_value_with_key_never_settles(text: Seq<char>, key: Seq<char>, value: Seq<char>)
    requires
        occurs(value, key),
        occurs(text, key),
    ensures
        !settles(text, key, value),
{
    assert forall|n: nat| !settles_within(text, key, value, n) by {
        lemma_key_stays(text, key, value, n);
    }
}

/// A value shorter than the key makes the text shorter with each replacement,
/// so replacing ends.
pub proof fn lemma_shorter_value_settles(text: Seq<char>, key: Seq<char>, value: Seq<char>)
    requires
        value.len() < key.len(),
    ensures
        settles(text, key, value),
    decreases text.len(),
{
    if occurs(text, key) {
        lemma_first_occurrence(text, key);
        let next = replaced_once(text, key, value);
        assert(next.len() < text.len());
        lemma_shorter_value_settles(next, key, value);
        let n = choose|n: nat| settles_within(next, key, value, n);
        assert(settles_within(text, key, value, n + 1));
    } else {
        lemma_replaced_all_without_key(text, key, value);
    }
}

/// How often `c` stands in `text`.
pub open spec fn count_of(text: Seq<char>, c: char) -> nat
    decreases text.len(),
{
    if text.len() == 0 {
        0
    } else {
        count_of(text.drop_last(), c) + if text.last() == c {
            1nat
        } else {
            0nat
        }
    }
}

proof fn lemma_count_of_concat(a: Seq<char>, b: Seq<char>, c: char)
    ensures
        count_of(a + b, c) == count_of(a, c) + count_of(b, c),
    decreases b.len(),
{
    if b.len() == 0 {
        assert(a + b =~= a);
    } else {
        assert((a + b).drop_last() =~= a + b.drop_last());
        lemma_count_of_concat(a, b.drop_last(), c);
    }
}

proof fn lemma_count_of_absent(text: Seq<char>, c: char)
    requires
        !text.contains(c),
    ensures
        count_of(text, c) == 0,
    decreases text.len(),
{
    if text.len() > 0 {
        assert(text.last() == text[text.len() - 1]);
        assert forall|i: int| 0 <= i < text.drop_last().len() implies text.drop_last()[i] != c by {
            assert(text.drop_last()[i] == text[i]);
        }
        lemma_count_of_absent(text.drop_last(), c);
    }
}

proof fn lemma_count_of_present(text: Seq<char>, c: char)
    requires
        text.contains(c),
    ensures
        count_of(text, c) > 0,
    decreases text.len(),
{
    let at = choose|i: int| 0 <= i < text.len() && text[i] == c;
    if at < text.len() - 1 {
        assert(text.drop_last()[at] == c);
        lemma_count_of_present(text.drop_last(), c);
    }
}

/// The replacement of `key` by `value` comes to an end in every text: the
/// value is shorter than the key, or the key holds a character that the
/// value lacks.
pub open spec fn always_settles(key: Seq<char>, value: Seq<char>) -> bool {
    ||| value.len() < key.len()
    ||| exists|c: char| key.contains(c) && !value.contains(c)
}

proof fn lemma_missing_character_settles(text: Seq<char>, key: Seq<char>, value: Seq<char>, c: char)
    requires
        key.contains(c),
        !value.contains(c),
    ensures
        settles(text, key, value),
    decreases count_of(text, c),
{
    if occurs(text, key) {
        lemma_first_occurrence(text, key);
        let at = first_occurrence(text, key);
        let before = text.subrange(0, at);
        let after = text.subrange(at + key.len(), text.len() as int);
        let next = replaced_once(text, key, value);
        assert(text =~= before + key + after);
        lemma_count_of_concat(before, key, c);
        lemma_count_of_concat(before + key, after, c);
        lemma_count_of_concat(before, value, c);
        lemma_count_of_concat(before + value, after, c);
        lemma_count_of_absent(value, c);
        lemma_count_of_present(key, c);
        lemma_missing_character_settles(next, key, value, c);
        let n = choose|n: nat| settles_within(next, key, value, n);
        assert(settles_within(text, key, value, n + 1));
    } else {
        lemma_replaced_all_without_key(text, key, value);
    }
}

/// Where `always_settles` holds of a key and its value, replacing comes to
/// an end in `text`, whatever it holds.
pub proof fn lemma_always_settles(text: Seq<char>, key: Seq<char>, value: Seq<char>)
    requires
        always_settles(key, value),
    ensures
        settles(text, key, value),
{
    if value.len() < key.len() {
        lemma_shorter_value_settles(text, key, value);
    } else {
        let c = choose|c: char| key.contains(c) && !value.contains(c);
        lemma_missing_character_settles(text, key, value, c);
    }
}

/// Where `always_settles` holds of each pair, the pairs can be replaced to
/// the end in turn, in every text.
pub proof fn lemma_substitution_ends(text: Seq<char>, params: Seq<(Seq<char>, Seq<char>)>)
    requires
        forall|i: int| 0 <= i < params.len() ==> always_settles(params[i].0, params[i].1),
    ensures
        substitution_ends(text, params),
    decreases params.len(),
{
    if params.len() > 0 {
        lemma_always_settles(text, params[0].0, params[0].1);
        let rest = params.drop_first();
        assert forall|i: int| 0 <= i < rest.len() implies always_settles(rest[i].0, rest[i].1) by {
            assert(rest[i] == params[i + 1]);
        }
        lemma_substitution_ends(replaced_all(text, params[0].0, params[0].1), rest);
    }
}

/// `text` with each `x` turned into `y`.
pub open spec fn each_turned(text: Seq<char>, x: char, y: char) -> Seq<char> {
    Seq::new(text.len(), |i: int| if text[i] == x { y } else { text[i] })
}

/// Replacing one character by another comes to an end and turns each
/// occurrence into the other character, leaving the rest of the text alone.
pub proof fn lemma_character_replaced(text: Seq<char>, x: char, y: char)
    requires
        x != y,
    ensures
        settles(text, seq![x], seq![y]),
        replaced_all(text, seq![x], seq![y]) == each_turned(text, x, y),
    decreases count_of(text, x),
{
    let key = seq![x];
    let value = seq![y];
    if occurs(text, key) {
        lemma_first_occurrence(text, key);
        let at = first_occurrence(text, key);
        let before = text.subrange(0, at);
        let after = text.subrange(at + 1, text.len() as int);
        let next = replaced_once(text, key, value);
        assert(text.subrange(at, at + 1)[0] == x);
        assert(text =~= before + key + after);
        assert(next =~= text.update(at, y));
        lemma_count_of_concat(before, key, x);
        lemma_count_of_concat(before + key, after, x);
        lemma_count_of_concat(before, value, x);
        lemma_count_of_concat(before + value, after, x);
        assert(key.contains(x)) by {
            assert(key[0] == x);
        }
        lemma_count_of_absent(value, x);
        lemma_count_of_present(key, x);
        lemma_character_replaced(next, x, y);
        let n = choose|n: nat| settles_within(next, key, value, n);
        assert(settles_within(text, key, value, n + 1));
        lemma_replaced_all_step(text, key, value, n + 1);
        assert(each_turned(next, x, y) =~= each_turned(text, x, y));
    } else {
        lemma_replaced_all_without_key(text, key, value);
        assert forall|i: int| 0 <= i < text.len() implies text[i] != x by {
            if text[i] == x {
                assert(text.subrange(i, i + 1) =~= key);
                assert(occurs_at(text, key, i));
            }
        }
        assert(each_turned(text, x, y) =~= text);
    }
}

/// Where each `x` is turned into `y`, no `x` is left, and `y` stands as
/// often as `x` and `y` stood together.
pub proof fn lemma_each_turned_counts(text: Seq<char>, x: char, y: char)
    requires
        x != y,
    ensures
        count_of(each_turned(text, x, y), x) == 0,
        count_of(each_turned(text, x, y), y) == count_of(text, x) + count_of(text, y),
    decreases text.len(),
{
    if text.len() > 0 {
        lemma_each_turned_counts(text.drop_last(), x, y);
        assert(each_turned(text, x, y).drop_last() =~= each_turned(text.drop_last(), x, y));
    }
}

/// The characters of `s`, in order.
pub fn chars_of(s: &str) -> (out: Vec<char>)
    ensures
        out@ == s@,
{
    broadcast use vstd::string::group_string_axioms;

    let mut out: Vec<char> = Vec::new();
    for c in iter: s.chars()
        invariant
            out@ == iter.history(),
            iter.seq() == s@,
    {
        out.push(c);
    }
    assert(out@ =~= s@);
    out
}

/// Whether `key` stands in `text` at `at`.
pub fn stands_at(text: &Vec<char>, key: &Vec<char>, at: usize) -> (yes: bool)
    ensures
        yes == occurs_at(text@, key@, at as int),
{
    if key.len() > text.len() || at > text.len() - key.len() {
        return false;
    }
    let mut i: usize = 0;
    while i < key.len()
        invariant
            i <= key.len(),
            at + key.len() <= text.len(),
            forall|j: int| 0 <= j < i ==> text@[at + j] == key@[j],
        decreases key.len() - i,
    {
        if text[at + i] != key[i] {
            proof {
                let part = text@.subrange(at as int, at + key@.len());
                assert(part[i as int] == text@[at + i]);
            }
            return false;
        }
        i += 1;
    }
    assert(text@.subrange(at as int, at + key@.len()) =~= key@);
    true
}

/// The leftmost position at which `key` stands in `text`, or `None` where it
/// stands nowhere.
pub fn find(text: &Vec<char>, key: &Vec<char>) -> (found: Option<usize>)
    ensures
        match found {
            Some(at) => first_at(text@, key@, at as int),
            None => !occurs(text@, key@),
        },
{
    if key.len() > text.len() {
        return None;
    }
    let last: usize = text.len() - key.len();
    let mut at: usize = 0;
    while at <= last
        invariant
            last == text.len() - key.len(),
            at <= last + 1,
            forall|earlier: int| 0 <= earlier < at ==> !occurs_at(text@, key@, earlier),
        decreases last + 1 - at,
    {
        if stands_at(text, key, at) {
            return Some(at);
        }
        if at == last {
            return None;
        }
        at += 1;
    }
    None
}

/// `text` with the `len` characters from `at` on replaced by `value`.
pub fn splice(text: &str, at: usize, len: usize, value: &str) -> (out: String)
    requires
        at + len <= text@.len(),
    ensures
        out@ == spliced(text@, at as int, len as int, value@),
{
    let total: usize = text.unicode_len();
    let mut out: String = text.substring_char(0, at).to_owned();
    out.append(value);
    out.append(text.substring_char(at + len, total));
    out
}

/// Replaces the leftmost occurrence of `key` in `text` by `value`, again and
/// again on the result, until `key` occurs no more.
pub fn replace_all(text: String, key: &str, value: &str) -> (out: String)
    requires
        settles(text@, key@, value@),
    ensures
        out@ == replaced_all(text@, key@, value@),
        !occurs(out@, key@),
{
    let key_chars: Vec<char> = chars_of(key);
    let mut out: String = text;
    let ghost mut steps: nat = choose|n: nat| settles_within(text@, key@, value@, n);
    loop
        invariant
            key_chars@ == key@,
            settles_within(out@, key@, value@, steps),
            replaced_all(out@, key@, value@) == replaced_all(text@, key@, value@),
        decreases steps,
    {
        let out_chars: Vec<char> = chars_of(out.as_str());
        match find(&out_chars, &key_chars) {
            None => {
                proof {
                    lemma_replaced_all_without_key(out@, key@, value@);
                }
                return out;
            },
            Some(at) => {
                proof {
                    lemma_first_at_is_first_occurrence(out@, key@, at as int);
                    lemma_replaced_all_step(out@, key@, value@, steps);
                    steps = (steps - 1) as nat;
                }
                out = splice(out.as_str(), at, key_chars.len(), value);
            },
        }
    }
}

/// Whether `a` and `b` are the same text.
pub fn same_text(a: &str, b: &str) -> (same: bool)
    ensures
        same == (a@ == b@),
{
    let left: Vec<char> = chars_of(a);
    let right: Vec<char> = chars_of(b);
    if left.len() != right.len() {
        return false;
    }
    let mut i: usize = 0;
    while i < left.len()
        invariant
            left@ == a@,
            right@ == b@,
            left.len() == right.len(),
            i <= left.len(),
            forall|j: int| 0 <= j < i ==> left@[j] == right@[j],
        decreases left.len() - i,
    {
        if left[i] != right[i] {
            return false;
        }
        i += 1;
    }
    assert(a@ =~= b@);
    true
}

/// Whether `c` stands in `text`.
pub fn holds_char(text: &Vec<char>, c: char) -> (yes: bool)
    ensures
        yes == text@.contains(c),
{
    let mut i: usize = 0;
    while i < text.len()
        invariant
            i <= text.len(),
            forall|j: int| 0 <= j < i ==> text@[j] != c,
        decreases text.len() - i,
    {
        if text[i] == c {
            return true;
        }
        i += 1;
    }
    false
}

/// Whether replacing `key` by `value` comes to an end in every text, by
/// `always_settles`.
pub fn settles_always(key: &str, value: &str) -> (yes: bool)
    ensures
        yes == always_settles(key@, value@),
{
    let key_chars: Vec<char> = chars_of(key);
    let value_chars: Vec<char> = chars_of(value);
    if value_chars.len() < key_chars.len() {
        return true;
    }
    let mut i: usize = 0;
    while i < key_chars.len()
        invariant
            i <= key_chars.len(),
            key_chars@ == key@,
            value_chars@ == value@,
            forall|j: int| 0 <= j < i ==> value@.contains(key@[j]),
        decreases key_chars.len() - i,
    {
        if !holds_char(&value_chars, key_chars[i]) {
            assert(key@.contains(key@[i as int]));
            return true;
        }
        i += 1;
    }
    false
}

} // verus!
