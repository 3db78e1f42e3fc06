//! The query builder: clauses appended one after the other, lists and groups
//! separated by commas, steps taken on a condition, and placeholders filled
//! in when the text is built.

use vstd::prelude::*;
use crate::query_text::{
    QueryText, has_key, interleaved, key_index, lemma_always_builds, lemma_with_list_keeps,
    unique_keys,
};
use crate::segment::{IntoSegment, QueryBuilderSegment, segments_of};
use crate::text::{
    always_settles, joined_with, replace_all, same_text, settles_always, substituted,
    substitution_ends,
};

verus! {

/// Puts a query together from fragments and builds its text.
pub struct QueryBuilder<'a> {
    segments: Vec<QueryBuilderSegment<'a>>,
    parameters: Vec<(&'a str, &'a str)>,
    storage: Vec<String>,
}

/// The text of each pair of `parameters`.
spec fn params_of(parameters: Seq<(&str, &str)>) -> Seq<(Seq<char>, Seq<char>)> {
    Seq::new(parameters.len(), |i: int| (parameters[i].0@, parameters[i].1@))
}

/// The text of each string of `storage`.
spec fn held_of(storage: Seq<String>) -> Seq<Seq<char>> {
    Seq::new(storage.len(), |i: int| storage[i]@)
}

/// The text of `seg`, where `storage` holds the strings.
spec fn text_of(seg: QueryBuilderSegment, storage: Seq<String>) -> Seq<char> {
    match seg {
        QueryBuilderSegment::Str(s) => s@,
        QueryBuilderSegment::Ref(i) => storage[i as int]@,
    }
}

/// The text of each of `segments`, where `storage` holds the strings.
spec fn fragments_of(segments: Seq<QueryBuilderSegment>, storage: Seq<String>) -> Seq<
    Seq<char>,
> {
    Seq::new(segments.len(), |i: int| text_of(segments[i], storage))
}

/// Each of `segments` that names a held string names one of `storage`.
spec fn all_held(segments: Seq<QueryBuilderSegment>, storage: Seq<String>) -> bool {
    forall|i: int|
        0 <= i < segments.len() ==> (#[trigger] segments[i] matches QueryBuilderSegment::Ref(j)
            ==> j < storage.len())
}

impl<'a> View for QueryBuilder<'a> {
    type V = QueryText;

    closed spec fn view(&self) -> QueryText {
        QueryText {
            fragments: fragments_of(self.segments@, self.storage@),
            held: held_of(self.storage@),
            params: params_of(self.parameters@),
        }
    }
}

impl<'a> QueryBuilder<'a> {
    #[verifier::type_invariant]
    spec fn inv(&self) -> bool {
        &&& all_held(self.segments@, self.storage@)
        &&& unique_keys(params_of(self.parameters@))
    }

    /// A builder with nothing in it.
    pub fn new() -> (res: Self)
        ensures
            res@ == QueryText::empty(),
    {
        let res = QueryBuilder { segments: Vec::new(), parameters: Vec::new(), storage: Vec::new() };
        assert(res@.fragments =~= QueryText::empty().fragments);
        assert(res@.held =~= QueryText::empty().held);
        assert(res@.params =~= QueryText::empty().params);
        res
    }

    /// Appends `segment`, unless it is empty text.
    pub fn add_segment<T: IntoSegment<'a>>(&mut self, segment: T) -> (res: &mut Self)
        requires
            old(self)@.accepts(segment.segment()),
        ensures
            res@ == old(self)@.with_segment(segment.segment()),
            *final(self) == *final(res),
    {
        let into = segment.into_segment();
        proof {
            use_type_invariant(&*self);
        }
        if let QueryBuilderSegment::Str(s) = into {
            if s.is_empty() {
                return self;
            }
        }
        let mut segments: Vec<QueryBuilderSegment<'a>> = Vec::new();
        core::mem::swap(&mut self.segments, &mut segments);
        segments.push(into);
        core::mem::swap(&mut self.segments, &mut segments);
        assert(self@.fragments =~= old(self)@.with_segment(into).fragments);
        self
    }

    /// Keeps `string` for as long as the builder lives and hands back the
    /// fragment that stands for it.
    pub fn hold(&mut self, string: String) -> (seg: QueryBuilderSegment<'a>)
        ensures
            final(self)@ == old(self)@.with_held(string@),
            seg == QueryBuilderSegment::<'a>::Ref(old(self)@.held.len() as usize),
            final(self)@.accepts(seg),
    {
        proof {
            use_type_invariant(&*self);
        }
        let mut segments: Vec<QueryBuilderSegment<'a>> = Vec::new();
        let mut storage: Vec<String> = Vec::new();
        core::mem::swap(&mut self.segments, &mut segments);
        core::mem::swap(&mut self.storage, &mut storage);
        let i: usize = storage.len();
        storage.push(string);
        core::mem::swap(&mut self.storage, &mut storage);
        core::mem::swap(&mut self.segments, &mut segments);
        assert(self@.held =~= old(self)@.with_held(string@).held);
        assert(self@.fragments =~= old(self)@.fragments);
        QueryBuilderSegment::Ref(i)
    }

    /// Appends `prefix` and then `segment`.
    pub fn add_segment_p<T: IntoSegment<'a>>(&mut self, prefix: &'a str, segment: T) -> (res:
        &mut Self)
        requires
            old(self)@.accepts(segment.segment()),
        ensures
            res@ == old(self)@.with_prefixed(prefix, segment.segment()),
            *final(self) == *final(res),
    {
        self.add_segment(prefix).add_segment(segment)
    }

    /// Appends `prefix`, `segment` and `suffix`.
    pub fn add_segment_ps<T: IntoSegment<'a>>(
        &mut self,
        prefix: &'a str,
        segment: T,
        suffix: &'a str,
    ) -> (res: &mut Self)
        requires
            old(self)@.accepts(segment.segment()),
        ensures
            res@ == old(self)@.with_wrapped(prefix, segment.segment(), suffix),
            *final(self) == *final(res),
    {
        self.add_segment_p(prefix, segment).add_segment(suffix)
    }

    /// Appends each of `segments` between `prefix` and `suffix`, with
    /// `seperator` as a fragment of its own between each two of them.
    pub fn join_segments<T: IntoSegment<'a>>(
        &mut self,
        seperator: &'a str,
        prefix: &'a str,
        segments: &[T],
        suffix: &'a str,
    ) -> (res: &mut Self)
        requires
            old(self)@.accepts_all(segments_of(segments@)),
        ensures
            res@ == old(self)@.with_list(seperator, prefix, segments_of(segments@), suffix),
            *final(self) == *final(res),
    {
        let ghost items = segments_of(segments@);
        let segments_count: usize = segments.len();
        let mut i: usize = 0;
        while i < segments_count
            invariant
                segments_count == segments@.len(),
                items == segments_of(segments@),
                i <= segments_count,
                old(self)@.accepts_all(items),
                self@ == old(self)@.with_list(seperator, prefix, items.take(i as int), suffix),
            decreases segments_count - i,
        {
            proof {
                lemma_with_list_keeps(old(self)@, seperator, prefix, items.take(i as int), suffix);
                assert(items.take(i + 1).drop_last() =~= items.take(i as int));
                assert(old(self)@.accepts(items[i as int]));
            }
            if i > 0 {
                self.add_segment(seperator);
            }
            self.add_segment_ps(prefix, segments[i], suffix);
            i += 1;
        }
        assert(items.take(segments_count as int) =~= items);
        self
    }

    /// Starts a CREATE statement for `node`.
    pub fn create(self, node: &'a str) -> (res: Self)
        ensures
            res@ == self@.with_prefixed("CREATE", QueryBuilderSegment::Str(node)),
    {
        let mut builder = self;
        builder.add_segment_p("CREATE", node);
        builder
    }

    /// Starts an UPDATE statement for `node`.
    pub fn update(self, node: &'a str) -> (res: Self)
        ensures
            res@ == self@.with_prefixed("UPDATE", QueryBuilderSegment::Str(node)),
    {
        let mut builder = self;
        builder.add_segment_p("UPDATE", node);
        builder
    }

    /// Starts a SELECT clause with `node`.
    pub fn select(self, node: &'a str) -> (res: Self)
        ensures
            res@ == self@.with_prefixed("SELECT", QueryBuilderSegment::Str(node)),
    {
        let mut builder = self;
        builder.add_segment_p("SELECT", node);
        builder
    }

    /// Starts a FROM clause with `node`.
    pub fn from(self, node: &'a str) -> (res: Self)
        ensures
            res@ == self@.with_prefixed("FROM", QueryBuilderSegment::Str(node)),
    {
        let mut builder = self;
        builder.add_segment_p("FROM", node);
        builder
    }

    /// Starts a SELECT clause with the `nodes`, separated by commas.
    pub fn select_many(self, nodes: &[&'a str]) -> (res: Self)
        ensures
            res@ == self@.with_segment(QueryBuilderSegment::Str("SELECT")).with_list(
                ",",
                "",
                segments_of(nodes@),
                "",
            ),
    {
        let mut builder = self;
        builder.add_segment("SELECT");
        builder.join_segments(",", "", nodes, "");
        builder
    }

    /// Appends `query` with a comma in front of it.
    pub fn also(self, query: &'a str) -> (res: Self)
        ensures
            res@ == self@.with_prefixed(",", QueryBuilderSegment::Str(query)),
    {
        let mut builder = self;
        builder.add_segment_p(",", query);
        builder
    }

    /// Starts a WHERE clause with `condition`.
    pub fn filter(self, condition: &'a str) -> (res: Self)
        ensures
            res@ == self@.with_prefixed("WHERE", QueryBuilderSegment::Str(condition)),
    {
        let mut builder = self;
        builder.add_segment_p("WHERE", condition);
        builder
    }

    /// Another name for `filter`.
    pub fn and_where(self, condition: &'a str) -> (res: Self)
        ensures
            res@ == self@.with_prefixed("WHERE", QueryBuilderSegment::Str(condition)),
    {
        self.filter(condition)
    }

    /// Goes on with `condition` after an AND.
    pub fn and(self, condition: &'a str) -> (res: Self)
        ensures
            res@ == self@.with_prefixed("AND", QueryBuilderSegment::Str(condition)),
    {
        let mut builder = self;
        builder.add_segment_p("AND", condition);
        builder
    }

    /// Starts a SET clause with `update`.
    pub fn set(self, update: &'a str) -> (res: Self)
        ensures
            res@ == self@.with_prefixed("SET", QueryBuilderSegment::Str(update)),
    {
        let mut builder = self;
        builder.add_segment_p("SET", update);
        builder
    }

    /// Starts a SET clause with the `updates`, separated by commas.
    pub fn set_many<T: IntoSegment<'a>>(self, updates: &[T]) -> (res: Self)
        requires
            self@.accepts_all(segments_of(updates@)),
        ensures
            res@ == self@.with_segment(QueryBuilderSegment::Str("SET")).with_list(
                ",",
                "",
                segments_of(updates@),
                "",
            ),
    {
        let mut builder = self;
        builder.add_segment("SET");
        builder.join_segments(",", "", updates, "");
        builder
    }

    /// Starts a FETCH clause with `field`.
    pub fn fetch(self, field: &'a str) -> (res: Self)
        ensures
            res@ == self@.with_prefixed("FETCH", QueryBuilderSegment::Str(field)),
    {
        let mut builder = self;
        builder.add_segment_p("FETCH", field);
        builder
    }

    /// Starts a FETCH clause with the `fields`, separated by commas.
    pub fn fetch_many<T: IntoSegment<'a>>(self, fields: &[T]) -> (res: Self)
        requires
            self@.accepts_all(segments_of(fields@)),
        ensures
            res@ == self@.with_segment(QueryBuilderSegment::Str("FETCH")).with_list(
                ",",
                "",
                segments_of(fields@),
                "",
            ),
    {
        let mut builder = self;
        builder.add_segment("FETCH");
        builder.join_segments(",", "", fields, "");
        builder
    }

    /// Appends `text` as it is.
    pub fn raw(self, text: &'a str) -> (res: Self)
        ensures
            res@ == self@.with_segment(QueryBuilderSegment::Str(text)),
    {
        let mut builder = self;
        builder.add_segment(text);
        builder
    }

    /// Starts a LIMIT clause with `limit`.
    pub fn limit(self, limit: &'a str) -> (res: Self)
        ensures
            res@ == self@.with_prefixed("LIMIT", QueryBuilderSegment::Str(limit)),
    {
        let mut builder = self;
        builder.add_segment_p("LIMIT", limit);
        builder
    }

    /// Starts a START AT clause with `offset`.
    pub fn start_at(self, offset: &'a str) -> (res: Self)
        ensures
            res@ == self@.with_prefixed("START AT", QueryBuilderSegment::Str(offset)),
    {
        let mut builder = self;
        builder.add_segment_p("START AT", offset);
        builder
    }

    /// Registers `value` as what `key` is replaced by when the query is
    /// built. A key registered before keeps its place and gets the new value.
    pub fn param(self, key: &'a str, value: &'a str) -> (res: Self)
        ensures
            res@ == self@.with_param(key@, value@),
    {
        proof {
            use_type_invariant(&self);
        }
        let ghost before = self@;
        let QueryBuilder { segments, parameters, storage } = self;
        let mut parameters = parameters;
        let mut i: usize = 0;
        while i < parameters.len()
            invariant
                i <= parameters.len(),
                before == self@,
                before.params == params_of(parameters@),
                before.fragments == fragments_of(segments@, storage@),
                before.held == held_of(storage@),
                unique_keys(before.params),
                all_held(segments@, storage@),
                forall|j: int| 0 <= j < i ==> parameters@[j].0@ != key@,
            decreases parameters.len() - i,
        {
            if same_text(parameters[i].0, key) {
                parameters.set(i, (key, value));
                proof {
                    let after = params_of(parameters@);
                    assert(before.params[i as int].0 == key@);
                    assert(has_key(before.params, key@));
                    assert(key_index(before.params, key@) == i);
                    assert(after =~= before.params.update(i as int, (key@, value@)));
                    assert forall|j: int| 0 <= j < after.len() implies after[j].0
                        == before.params[j].0 by {}
                }
                return QueryBuilder { segments, parameters, storage };
            }
            i += 1;
        }
        parameters.push((key, value));
        proof {
            let after = params_of(parameters@);
            assert forall|j: int| 0 <= j < before.params.len() implies before.params[j].0
                != key@ by {}
            assert(!has_key(before.params, key@));
            assert(after =~= before.params.push((key@, value@)));
        }
        QueryBuilder { segments, parameters, storage }
    }

    /// Hands the builder to `action` where `condition` holds, and back as it
    /// is where it does not.
    pub fn if_then<F: FnOnce(Self) -> Self>(self, condition: bool, action: F) -> (res: Self)
        requires
            condition ==> call_requires(action, (self,)),
        ensures
            condition ==> call_ensures(action, (self,), res),
            !condition ==> res == self,
    {
        if !condition {
            return self;
        }
        action(self)
    }

    /// Runs `action` on a builder of its own and appends the fragments that
    /// it comes back with, a comma before each but the first. The strings
    /// that the group holds are taken over; its placeholders are not.
    pub fn commas<F: FnOnce(Self) -> Self>(self, action: F) -> (res: Self)
        requires
            forall|fresh: Self| fresh@ == QueryText::empty() ==> call_requires(action, (fresh,)),
        ensures
            exists|fresh: Self, group: Self|
                {
                    &&& fresh@ == QueryText::empty()
                    &&& call_ensures(action, (fresh,), group)
                    &&& res@ == self@.with_group(group@, seq![','])
                },
    {
        let fresh = QueryBuilder::new();
        let other = action(fresh);
        proof {
            use_type_invariant(&self);
            use_type_invariant(&other);
            reveal_strlit(",");
        }
        let ghost comma = seq![','];
        assert(","@ =~= comma);
        let QueryBuilder { segments, parameters, storage } = self;
        let QueryBuilder { segments: group_segments, parameters: _, storage: group_storage } = other;
        let mut segments = segments;
        let mut storage = storage;
        let mut group_storage = group_storage;
        let ghost own = fragments_of(segments@, storage@);
        let ghost group = fragments_of(group_segments@, group_storage@);
        let ghost group_held = group_storage@;
        let ghost own_held = storage@;
        let base: usize = storage.len();
        storage.append(&mut group_storage);
        let total: usize = storage.len();
        assert(held_of(storage@) =~= self@.held + other@.held);
        assert(fragments_of(segments@, storage@) =~= own);
        assert(interleaved(group.take(0), comma) =~= Seq::<Seq<char>>::empty());
        let mut index: usize = 0;
        while index < group_segments.len()
            invariant
                index <= group_segments.len(),
                storage@ == own_held + group_held,
                total == storage@.len(),
                base == own_held.len(),
                comma == seq![','],
                ","@ == comma,
                all_held(group_segments@, group_held),
                all_held(segments@, storage@),
                group == fragments_of(group_segments@, group_held),
                fragments_of(segments@, storage@) == own + interleaved(
                    group.take(index as int),
                    comma,
                ),
            decreases group_segments.len() - index,
        {
            let ghost so_far = fragments_of(segments@, storage@);
            let ghost listed = interleaved(group.take(index as int), comma);
            if index > 0 {
                segments.push(QueryBuilderSegment::Str(","));
            }
            let ghost with_comma = if index > 0 {
                listed.push(comma)
            } else {
                listed
            };
            proof {
                if index > 0 {
                    assert(fragments_of(segments@, storage@) =~= so_far.push(comma));
                    assert(so_far.push(comma) =~= own + with_comma);
                }
            }
            let ghost with_comma_all = fragments_of(segments@, storage@);
            let segment = group_segments[index];
            assert(segment == group_segments@[index as int]);
            assert(storage@.len() == own_held.len() + group_held.len());
            match segment {
                QueryBuilderSegment::Str(s) => {
                    segments.push(QueryBuilderSegment::Str(s));
                },
                QueryBuilderSegment::Ref(i) => {
                    assert(storage@[base + i] == group_held[i as int]);
                    segments.push(QueryBuilderSegment::Ref(base + i));
                },
            }
            proof {
                let next = group.take(index + 1);
                assert(next.drop_last() =~= group.take(index as int));
                assert(next.last() == group[index as int]);
                assert(interleaved(next, comma) =~= with_comma.push(group[index as int]));
                assert(fragments_of(segments@, storage@) =~= with_comma_all.push(
                    group[index as int],
                ));
                assert(with_comma_all.push(group[index as int]) =~= own + interleaved(next, comma));
            }
            index += 1;
        }
        assert(group.take(group_segments.len() as int) =~= group);
        QueryBuilder { segments, parameters, storage }
    }

    /// The finished query: the fragments joined by single spaces, then each
    /// placeholder replaced by its value until it occurs no more, in the
    /// order in which the keys were first registered.
    pub fn build(self) -> (output: String)
        requires
            self@.builds(),
        ensures
            output@ == self@.built(),
    {
        proof {
            use_type_invariant(&self);
            reveal_strlit(" ");
        }
        let ghost space = seq![' '];
        assert(" "@ =~= space);
        let ghost fragments = self@.fragments;
        let mut output: String = String::new();
        let mut i: usize = 0;
        assert(joined_with(fragments.take(0), space) =~= Seq::<char>::empty());
        while i < self.segments.len()
            invariant
                i <= self.segments.len(),
                space == seq![' '],
                " "@ == space,
                all_held(self.segments@, self.storage@),
                fragments == fragments_of(self.segments@, self.storage@),
                output@ == joined_with(fragments.take(i as int), space),
            decreases self.segments.len() - i,
        {
            let ghost before = output@;
            if i > 0 {
                output.append(" ");
            }
            match self.segments[i] {
                QueryBuilderSegment::Str(s) => {
                    output.append(s);
                },
                QueryBuilderSegment::Ref(j) => {
                    output.append(self.storage[j].as_str());
                },
            }
            proof {
                let next = fragments.take(i + 1);
                assert(next.drop_last() =~= fragments.take(i as int));
                assert(next.last() == fragments[i as int]);
                if i == 0 {
                    assert(output@ =~= fragments[0]);
                } else {
                    assert(output@ =~= before + space + fragments[i as int]);
                }
            }
            i += 1;
        }
        assert(fragments.take(self.segments.len() as int) =~= fragments);
        let ghost params = self@.params;
        let mut p: usize = 0;
        assert(params.skip(0) =~= params);
        while p < self.parameters.len()
            invariant
                p <= self.parameters.len(),
                params == params_of(self.parameters@),
                substitution_ends(output@, params.skip(p as int)),
                substituted(output@, params.skip(p as int)) == self@.built(),
            decreases self.parameters.len() - p,
        {
            let (key, value) = self.parameters[p];
            proof {
                let rest = params.skip(p as int);
                assert(rest[0] == (key@, value@));
                assert(rest.drop_first() =~= params.skip(p + 1));
            }
            output = replace_all(output, key, value);
            p += 1;
        }
        output
    }

    /// Whether filling in the placeholders comes to an end whatever the
    /// fragments hold.
    pub fn always_builds(&self) -> (yes: bool)
        ensures
            yes == self@.always_builds(),
    {
        let mut p: usize = 0;
        while p < self.parameters.len()
            invariant
                p <= self.parameters.len(),
                forall|i: int|
                    0 <= i < p ==> always_settles(
                        (#[trigger] self@.params[i]).0,
                        self@.params[i].1,
                    ),
            decreases self.parameters.len() - p,
        {
            let (key, value) = self.parameters[p];
            assert(self@.params[p as int] == (key@, value@));
            if !settles_always(key, value) {
                return false;
            }
            p += 1;
        }
        true
    }

    /// The finished query, where filling in the placeholders is sure to come
    /// to an end; `None` where a value is as long as its key and holds each
    /// of its characters.
    pub fn build_checked(self) -> (output: Option<String>)
        ensures
            output is Some == self@.always_builds(),
            output matches Some(text) ==> self@.builds() && text@ == self@.built(),
    {
        if self.always_builds() {
            proof {
                lemma_always_builds(self@);
            }
            Some(self.build())
        } else {
            None
        }
    }

    /// Lets `T` append what it has to say of itself.
    pub fn set_object<T: QueryBuilderSetObject>(self) -> (res: Self) where T: 'a
        ensures
            call_ensures(T::set_querybuilder_object, (self,), res),
    {
        T::set_querybuilder_object(self)
    }
}

/// A type that knows how to write itself into a query, through what the
/// builder offers to everyone.
pub trait QueryBuilderSetObject {
    /// The builder with what the type has to say of itself appended.
    fn set_querybuilder_object<'b>(querybuilder: QueryBuilder<'b>) -> (res: QueryBuilder<'b>);
}

} // verus!
