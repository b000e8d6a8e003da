use vstd::prelude::*;

verus! {

/// A structural URI separator.
#[allow(non_camel_case_types)]
#[derive(Clone, Copy, Debug, PartialEq, Eq, Structural)]
pub enum Delimiter {
    /// Between scheme and path: `:`
    SCHEME_PATH,
    /// Between scheme and authority: `://`
    SCHEME_AUTHORITY,
    /// Between path segments: `/`
    PATH,
    /// Between the leading components and the query: an escaped `?`
    PRE_QUERY,
    /// Between attribute-value pairs of the query: `&`
    QUERY,
    /// Between the leading components and the fragment: `#`
    PRE_FRAGMENT,
}

/// One node of a parsed glob pattern.
#[derive(Debug, PartialEq, Eq)]
pub enum Primitive {
    /// A maximal run of ordinary characters.
    Literal(String),
    /// `*`
    Any,
    /// `**`
    Recursive,
    /// `?`
    Single,
    /// `{a,b,c}`: each alternative is a pattern of its own.
    List(Vec<AST>),
    /// `[...]`: the text between the brackets.
    Range(String),
    /// A structural separator.
    Delimiter(Delimiter),
}

/// A parsed glob pattern: its nodes in source order.
pub type AST = Vec<Primitive>;

/// The mathematical value of a `Primitive`.
pub ghost enum Node {
    Literal(Seq<char>),
    Any,
    Recursive,
    Single,
    List(Seq<Seq<Node>>),
    Range(Seq<char>),
    Delimiter(Delimiter),
}

/// The value of a sequence of primitives, node by node.
pub open spec fn nodes_of(s: Seq<Primitive>) -> Seq<Node>
    decreases s,
{
    Seq::new(s.len(), |i: int| if 0 <= i < s.len() { node_of(s[i]) } else { Node::Any })
}

/// The value of a list of alternatives, one sequence of nodes each.
pub open spec fn alts_of(alts: Seq<AST>) -> Seq<Seq<Node>>
    decreases alts,
{
    Seq::new(alts.len(), |i: int| if 0 <= i < alts.len() { nodes_of(alts[i]@) } else { seq![] })
}

/// The value of one primitive.
pub open spec fn node_of(p: Primitive) -> Node
    decreases p,
{
    match p {
        Primitive::Literal(s) => Node::Literal(s@),
        Primitive::Any => Node::Any,
        Primitive::Recursive => Node::Recursive,
        Primitive::Single => Node::Single,
        Primitive::List(alts) => Node::List(alts_of(alts@)),
        Primitive::Range(s) => Node::Range(s@),
        Primitive::Delimiter(d) => Node::Delimiter(d),
    }
}

impl View for Primitive {
    type V = Node;

    open spec fn view(&self) -> Node {
        node_of(*self)
    }
}

} // verus!
