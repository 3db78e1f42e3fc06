//! One fragment of a query, as the builder keeps it.

use vstd::prelude::*;
use vstd::std_specs::convert::FromSpecImpl;

verus! {

/// A fragment of query text: text that the caller keeps alive, or the place
/// of a string that the builder holds itself.
#[derive(Clone, Copy)]
pub enum QueryBuilderSegment<'a> {
    /// Text that outlives the builder.
    Str(&'a str),
    /// The place, among the strings that the builder holds, of the text.
    Ref(usize),
}

impl<'a> From<&'a str> for QueryBuilderSegment<'a> {
    fn from(i: &'a str) -> (seg: Self) {
        QueryBuilderSegment::Str(i)
    }
}

impl<'a> FromSpecImpl<&'a str> for QueryBuilderSegment<'a> {
    open spec fn obeys_from_spec() -> bool {
        true
    }

    open spec fn from_spec(i: &'a str) -> Self {
        QueryBuilderSegment::Str(i)
    }
}

impl<'a> From<usize> for QueryBuilderSegment<'a> {
    fn from(i: usize) -> (seg: Self) {
        QueryBuilderSegment::Ref(i)
    }
}

impl<'a> FromSpecImpl<usize> for QueryBuilderSegment<'a> {
    open spec fn obeys_from_spec() -> bool {
        true
    }

    open spec fn from_spec(i: usize) -> Self {
        QueryBuilderSegment::Ref(i)
    }
}

/// What the builder takes where a fragment is wanted: text, the place of a
/// held string, or a fragment as it is.
pub trait IntoSegment<'a>: Copy {
    /// The fragment that this value stands for.
    spec fn segment(self) -> QueryBuilderSegment<'a>;

    /// The fragment itself.
    fn into_segment(self) -> (seg: QueryBuilderSegment<'a>)
        ensures
            seg == self.segment(),
    ;
}

impl<'a> IntoSegment<'a> for &'a str {
    open spec fn segment(self) -> QueryBuilderSegment<'a> {
        QueryBuilderSegment::Str(self)
    }

    fn into_segment(self) -> (seg: QueryBuilderSegment<'a>) {
        QueryBuilderSegment::Str(self)
    }
}

impl<'a> IntoSegment<'a> for usize {
    open spec fn segment(self) -> QueryBuilderSegment<'a> {
        QueryBuilderSegment::Ref(self)
    }

    fn into_segment(self) -> (seg: QueryBuilderSegment<'a>) {
        QueryBuilderSegment::Ref(self)
    }
}

impl<'a> IntoSegment<'a> for QueryBuilderSegment<'a> {
    open spec fn segment(self) -> QueryBuilderSegment<'a> {
        self
    }

    fn into_segment(self) -> (seg: QueryBuilderSegment<'a>) {
        self
    }
}

/// The fragments that `items` stand for, in order.
pub open spec fn segments_of<'a, T: IntoSegment<'a>>(items: Seq<T>) -> Seq<QueryBuilderSegment<'a>> {
    Seq::new(items.len(), |i: int| items[i].segment())
}

} // verus!
