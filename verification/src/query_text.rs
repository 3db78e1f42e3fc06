//! What a builder stands for: its fragments as text, the strings it holds,
//! and the placeholders registered with it.

use vstd::prelude::*;
use crate::segment::QueryBuilderSegment;
use crate::text::{
    always_settles, joined_with, lemma_replaced_all_holds_no_key, lemma_substitution_ends, occurs,
    replaced_all, substituted, substitution_ends,
};

verus! {

/// The state of a builder as plain values.
pub struct QueryText {
    /// The text of each fragment, in the order in which the query reads.
    pub fragments: Seq<Seq<char>>,
    /// The strings that the builder holds, each at the place it was given.
    pub held: Seq<Seq<char>>,
    /// The placeholders with their values, in the order in which their keys
    /// were first registered.
    pub params: Seq<(Seq<char>, Seq<char>)>,
}

/// The place of `key` among `params`, where it has one.
pub open spec fn key_index(params: Seq<(Seq<char>, Seq<char>)>, key: Seq<char>) -> int {
    choose|i: int| 0 <= i < params.len() && params[i].0 == key
}

/// `key` is registered in `params`.
pub open spec fn has_key(params: Seq<(Seq<char>, Seq<char>)>, key: Seq<char>) -> bool {
    exists|i: int| 0 <= i < params.len() && params[i].0 == key
}

/// No key is registered twice.
pub open spec fn unique_keys(params: Seq<(Seq<char>, Seq<char>)>) -> bool {
    forall|i: int, j: int|
        0 <= i < params.len() && 0 <= j < params.len() && params[i].0 == params[j].0 ==> i == j
}

/// `items` with `sep` put between each two neighbours, as fragments.
pub open spec fn interleaved(items: Seq<Seq<char>>, sep: Seq<char>) -> Seq<Seq<char>>
    decreases items.len(),
{
    if items.len() == 0 {
        Seq::empty()
    } else if items.len() == 1 {
        seq![items[0]]
    } else {
        interleaved(items.drop_last(), sep).push(sep).push(items.last())
    }
}

impl QueryText {
    /// A builder to which nothing has been given yet.
    pub open spec fn empty() -> QueryText {
        QueryText { fragments: Seq::empty(), held: Seq::empty(), params: Seq::empty() }
    }

    /// `seg` can be appended: where it names a held string, that string is
    /// there.
    pub open spec fn accepts(self, seg: QueryBuilderSegment) -> bool {
        seg matches QueryBuilderSegment::Ref(i) ==> i < self.held.len()
    }

    /// Each of `items` can be appended.
    pub open spec fn accepts_all(self, items: Seq<QueryBuilderSegment>) -> bool {
        forall|i: int| 0 <= i < items.len() ==> self.accepts(#[trigger] items[i])
    }

    /// The text that `seg` stands for.
    pub open spec fn text_of(self, seg: QueryBuilderSegment) -> Seq<char> {
        match seg {
            QueryBuilderSegment::Str(s) => s@,
            QueryBuilderSegment::Ref(i) => self.held[i as int],
        }
    }

    /// With `seg` appended. Empty text that the caller keeps is left out; a
    /// held string is appended whatever it holds.
    pub open spec fn with_segment(self, seg: QueryBuilderSegment) -> QueryText {
        if seg matches QueryBuilderSegment::Str(s) && s@.len() == 0 {
            self
        } else {
            QueryText { fragments: self.fragments.push(self.text_of(seg)), ..self }
        }
    }

    /// With `prefix` and then `seg` appended.
    pub open spec fn with_prefixed(self, prefix: &str, seg: QueryBuilderSegment) -> QueryText {
        self.with_segment(QueryBuilderSegment::Str(prefix)).with_segment(seg)
    }

    /// With `prefix`, `seg` and `suffix` appended.
    pub open spec fn with_wrapped(
        self,
        prefix: &str,
        seg: QueryBuilderSegment,
        suffix: &str,
    ) -> QueryText {
        self.with_prefixed(prefix, seg).with_segment(QueryBuilderSegment::Str(suffix))
    }

    /// With each of `items` appended between `prefix` and `suffix`, and `sep`
    /// as a fragment of its own between each two neighbours.
    pub open spec fn with_list(
        self,
        sep: &str,
        prefix: &str,
        items: Seq<QueryBuilderSegment>,
        suffix: &str,
    ) -> QueryText
        decreases items.len(),
    {
        if items.len() == 0 {
            self
        } else if items.len() == 1 {
            self.with_wrapped(prefix, items[0], suffix)
        } else {
            self.with_list(sep, prefix, items.drop_last(), suffix).with_segment(
                QueryBuilderSegment::Str(sep),
            ).with_wrapped(prefix, items.last(), suffix)
        }
    }

    /// With `string` held at the next free place.
    pub open spec fn with_held(self, string: Seq<char>) -> QueryText {
        QueryText { held: self.held.push(string), ..self }
    }

    /// With `value` registered for `key`: in the place of the value that
    /// `key` had, or as the last placeholder where `key` is new.
    pub open spec fn with_param(self, key: Seq<char>, value: Seq<char>) -> QueryText {
        if has_key(self.params, key) {
            QueryText { params: self.params.update(key_index(self.params, key), (key, value)), ..self }
        } else {
            QueryText { params: self.params.push((key, value)), ..self }
        }
    }

    /// With the fragments of `group` appended, `comma` before each but the
    /// first, and the strings that `group` holds taken over. The placeholders
    /// of `group` are not.
    pub open spec fn with_group(self, group: QueryText, comma: Seq<char>) -> QueryText {
        QueryText {
            fragments: self.fragments + interleaved(group.fragments, comma),
            held: self.held + group.held,
            params: self.params,
        }
    }

    /// The fragments with one space between each two neighbours.
    pub open spec fn text(self) -> Seq<char> {
        joined_with(self.fragments, seq![' '])
    }

    /// Filling in the placeholders comes to an end.
    pub open spec fn builds(self) -> bool {
        substitution_ends(self.text(), self.params)
    }

    /// Filling in the placeholders comes to an end whatever the fragments
    /// hold: each value is shorter than its key or lacks one of its
    /// characters.
    pub open spec fn always_builds(self) -> bool {
        forall|i: int|
            0 <= i < self.params.len() ==> always_settles(
                (#[trigger] self.params[i]).0,
                self.params[i].1,
            )
    }

    /// The finished query: the fragments joined by spaces, each placeholder
    /// replaced by its value until it occurs no more.
    pub open spec fn built(self) -> Seq<char> {
        substituted(self.text(), self.params)
    }
}

/// Appending fragments leaves the held strings and the placeholders alone.
pub proof fn lemma_with_list_keeps(
    before: QueryText,
    sep: &str,
    prefix: &str,
    items: Seq<QueryBuilderSegment>,
    suffix: &str,
)
    ensures
        before.with_list(sep, prefix, items, suffix).held == before.held,
        before.with_list(sep, prefix, items, suffix).params == before.params,
    decreases items.len(),
{
    if items.len() > 1 {
        lemma_with_list_keeps(before, sep, prefix, items.drop_last(), suffix);
    }
}

/// The text of each of `items`, as `state` resolves them.
pub open spec fn texts_of(state: QueryText, items: Seq<QueryBuilderSegment>) -> Seq<Seq<char>> {
    Seq::new(items.len(), |i: int| state.text_of(items[i]))
}

/// No item is empty text that the caller keeps: such an item is left out
/// when it is appended.
pub open spec fn none_left_out(items: Seq<QueryBuilderSegment>) -> bool {
    forall|i: int|
        0 <= i < items.len() ==> !(#[trigger] items[i] matches QueryBuilderSegment::Str(s)
            && s@.len() == 0)
}

proof fn lemma_list_fragments(
    before: QueryText,
    sep: &str,
    prefix: &str,
    items: Seq<QueryBuilderSegment>,
    suffix: &str,
)
    requires
        sep@.len() > 0,
        prefix@.len() == 0,
        suffix@.len() == 0,
        none_left_out(items),
    ensures
        before.with_list(sep, prefix, items, suffix).fragments == before.fragments + interleaved(
            texts_of(before, items),
            sep@,
        ),
    decreases items.len(),
{
    let texts = texts_of(before, items);
    let after = before.with_list(sep, prefix, items, suffix);
    if items.len() == 0 {
        assert(after.fragments =~= before.fragments + interleaved(texts, sep@));
    } else if items.len() == 1 {
        assert(after.fragments =~= before.fragments + interleaved(texts, sep@));
    } else {
        let front = items.drop_last();
        lemma_list_fragments(before, sep, prefix, front, suffix);
        lemma_with_list_keeps(before, sep, prefix, front, suffix);
        assert(texts.drop_last() =~= texts_of(before, front));
        assert(after.fragments =~= before.fragments + interleaved(texts, sep@));
    }
}

proof fn lemma_interleaved_len(items: Seq<Seq<char>>, sep: Seq<char>)
    requires
        items.len() > 0,
    ensures
        interleaved(items, sep).len() == 2 * items.len() - 1,
    decreases items.len(),
{
    if items.len() > 1 {
        lemma_interleaved_len(items.drop_last(), sep);
    }
}

proof fn lemma_joined_interleaved(items: Seq<Seq<char>>, sep: Seq<char>, gap: Seq<char>)
    requires
        items.len() > 0,
    ensures
        joined_with(interleaved(items, sep), gap) == joined_with(items, gap + sep + gap),
    decreases items.len(),
{
    if items.len() > 1 {
        let front = items.drop_last();
        let listed = interleaved(front, sep);
        lemma_joined_interleaved(front, sep, gap);
        lemma_interleaved_len(front, sep);
        let with_sep = listed.push(sep);
        let all = with_sep.push(items.last());
        assert(all.drop_last() =~= with_sep);
        assert(with_sep.drop_last() =~= listed);
        assert(joined_with(all, gap) == joined_with(with_sep, gap) + gap + items.last());
        assert(joined_with(with_sep, gap) == joined_with(listed, gap) + gap + sep);
        assert(joined_with(all, gap) =~= joined_with(front, gap + sep + gap) + (gap + sep + gap)
            + items.last());
    }
}

/// A list appended to a builder without fragments and without placeholders,
/// with a comma as separator and nothing before or after each item, builds
/// into the items with a space, a comma and a space between each two of
/// them. No item may be empty text that the caller keeps.
pub proof fn lemma_comma_list_builds(
    before: QueryText,
    sep: &str,
    prefix: &str,
    items: Seq<QueryBuilderSegment>,
    suffix: &str,
)
    requires
        before.fragments.len() == 0,
        before.params.len() == 0,
        sep@ == seq![','],
        prefix@.len() == 0,
        suffix@.len() == 0,
        none_left_out(items),
    ensures
        before.with_list(sep, prefix, items, suffix).builds(),
        before.with_list(sep, prefix, items, suffix).built() == joined_with(
            texts_of(before, items),
            seq![' ', ',', ' '],
        ),
{
    let after = before.with_list(sep, prefix, items, suffix);
    let texts = texts_of(before, items);
    lemma_list_fragments(before, sep, prefix, items, suffix);
    lemma_with_list_keeps(before, sep, prefix, items, suffix);
    if items.len() > 0 {
        lemma_joined_interleaved(texts, sep@, seq![' ']);
    }
    assert(after.fragments =~= interleaved(texts, sep@));
    assert(seq![' '] + sep@ + seq![' '] =~= seq![' ', ',', ' ']);
}

/// A builder that always builds, builds.
pub proof fn lemma_always_builds(state: QueryText)
    requires
        state.always_builds(),
    ensures
        state.builds(),
{
    lemma_substitution_ends(state.text(), state.params);
}

/// Without placeholders the finished query is the fragments joined by
/// spaces.
pub proof fn lemma_built_without_params(state: QueryText)
    requires
        state.params.len() == 0,
    ensures
        state.builds(),
        state.built() == state.text(),
{
}

proof fn lemma_substituted_holds_no_last_key(text: Seq<char>, params: Seq<(Seq<char>, Seq<char>)>)
    requires
        params.len() > 0,
        substitution_ends(text, params),
    ensures
        !occurs(substituted(text, params), params.last().0),
    decreases params.len(),
{
    let next = replaced_all(text, params[0].0, params[0].1);
    if params.len() == 1 {
        lemma_replaced_all_holds_no_key(text, params[0].0, params[0].1);
        assert(substituted(next, params.drop_first()) == next);
    } else {
        lemma_substituted_holds_no_last_key(next, params.drop_first());
        assert(params.drop_first().last() == params.last());
    }
}

/// The key that is replaced last occurs nowhere in the finished query. With
/// one placeholder registered, that is its key.
pub proof fn lemma_built_holds_no_last_key(state: QueryText)
    requires
        state.params.len() > 0,
        state.builds(),
    ensures
        !occurs(state.built(), state.params.last().0),
{
    lemma_substituted_holds_no_last_key(state.text(), state.params);
}

/// Registering a value keeps each key registered once, and the value last
/// given for a key is the one it has.
pub proof fn lemma_with_param_last_wins(state: QueryText, key: Seq<char>, value: Seq<char>)
    requires
        unique_keys(state.params),
    ensures
        unique_keys(state.with_param(key, value).params),
        has_key(state.with_param(key, value).params, key),
        state.with_param(key, value).params[key_index(state.with_param(key, value).params, key)]
            == (key, value),
        state.with_param(key, value).params.len() == state.params.len() + if has_key(
            state.params,
            key,
        ) {
            0int
        } else {
            1int
        },
{
    let after = state.with_param(key, value).params;
    if has_key(state.params, key) {
        let at = key_index(state.params, key);
        assert forall|j: int| 0 <= j < after.len() implies after[j].0 == state.params[j].0 by {}
        assert(after[at].0 == key);
    } else {
        assert(after[state.params.len() as int].0 == key);
    }
    let found = key_index(after, key);
    assert(after[found].0 == key);
}

} // verus!
