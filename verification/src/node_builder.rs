//! Path expressions written from text: arrows between nodes and edges,
//! aliases, labels and comparisons with a parameter.

use vstd::prelude::*;

verus! {

/// `origin`, an arrow, and `node`.
pub open spec fn with_arrow(origin: Seq<char>, node: Seq<char>) -> Seq<char> {
    origin + seq!['-', '>'] + node
}

/// `path` under the name `alias`.
pub open spec fn aliased(path: Seq<char>, alias: Seq<char>) -> Seq<char> {
    path + seq![' ', 'a', 's', ' '] + alias
}

/// The record `id` of the table `table`.
pub open spec fn named_label(table: Seq<char>, id: Seq<char>) -> Seq<char> {
    table + seq![':'] + id
}

/// `path` compared with the parameter called `param`.
pub open spec fn equals_param(path: Seq<char>, param: Seq<char>) -> Seq<char> {
    path + seq![' ', '=', ' ', '$'] + param
}

/// `a`, `b` and `c` in one string.
pub fn concat3(a: &str, b: &str, c: &str) -> (out: String)
    ensures
        out@ == a@ + b@ + c@,
{
    let mut out: String = a.to_owned();
    out.append(b);
    out.append(c);
    out
}

/// What can stand as a node in a path expression.
pub trait ToNodeBuilder {
    /// The text of the node.
    spec fn node(&self) -> Seq<char>;

    /// The node as text.
    fn node_str(&self) -> (text: &str)
        ensures
            text@ == self.node(),
    ;

    /// The path from this node on to `relation_or_node`.
    fn with(&self, relation_or_node: &str) -> (path: String)
        ensures
            path@ == with_arrow(self.node(), relation_or_node@),
    {
        proof {
            reveal_strlit("->");
        }
        assert("->"@ =~= seq!['-', '>']);
        concat3(self.node_str(), "->", relation_or_node)
    }

    /// This node under the name `alias`.
    fn as_alias(&self, alias: &str) -> (path: String)
        ensures
            path@ == aliased(self.node(), alias@),
    {
        proof {
            reveal_strlit(" as ");
        }
        assert(" as "@ =~= seq![' ', 'a', 's', ' ']);
        concat3(self.node_str(), " as ", alias)
    }

    /// This node as the identifier of a record of the table `label_name`.
    fn as_named_label(&self, label_name: &str) -> (label: String)
        ensures
            label@ == named_label(label_name@, self.node()),
    {
        proof {
            reveal_strlit(":");
        }
        assert(":"@ =~= seq![':']);
        concat3(label_name, ":", self.node_str())
    }

    /// This node compared with the parameter of its own name.
    fn equals_parameterized(&self) -> (condition: String)
        ensures
            condition@ == equals_param(self.node(), self.node()),
    {
        proof {
            reveal_strlit(" = $");
        }
        assert(" = $"@ =~= seq![' ', '=', ' ', '$']);
        concat3(self.node_str(), " = $", self.node_str())
    }
}

impl ToNodeBuilder for str {
    open spec fn node(&self) -> Seq<char> {
        self@
    }

    fn node_str(&self) -> (text: &str) {
        self
    }
}

impl ToNodeBuilder for String {
    open spec fn node(&self) -> Seq<char> {
        self@
    }

    fn node_str(&self) -> (text: &str) {
        self.as_str()
    }
}

/// A path under construction that can be handed to a step or kept as it is.
pub trait NodeBuilder: Sized {
    /// Hands the path to `action` where `condition` holds, and back as it is
    /// where it does not.
    fn if_then<F: FnOnce(Self) -> Self>(self, condition: bool, action: F) -> (res: Self)
        requires
            condition ==> call_requires(action, (self,)),
        ensures
            condition ==> call_ensures(action, (self,), res),
            !condition ==> res == self,
    {
        if condition {
            action(self)
        } else {
            self
        }
    }
}

impl NodeBuilder for String {

}

} // verus!
