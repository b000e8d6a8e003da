use vstd::prelude::*;
use vstd::string::*;

use crate::error::GlobError;
use crate::primitives::{alts_of, node_of, nodes_of, Delimiter, Node, Primitive, AST};

verus! {

/// `ast` with the character `c` added to its literal text: appended to a
/// trailing `Literal` node, or as a new one.
pub open spec fn push_char(ast: Seq<Node>, c: char) -> Seq<Node> {
    if ast.len() > 0 && ast.last() is Literal {
        ast.drop_last().push(Node::Literal(ast.last()->Literal_0.push(c)))
    } else {
        ast.push(Node::Literal(seq![c]))
    }
}

/// The first index `k >= from` with `s[k] == c`, if there is one.
pub open spec fn find_from(s: Seq<char>, from: int, c: char) -> Option<int>
    decreases s.len() - from,
{
    if from < 0 || from >= s.len() {
        None
    } else if s[from] == c {
        Some(from)
    } else {
        find_from(s, from + 1, c)
    }
}

proof fn lemma_find_from(s: Seq<char>, from: int, c: char)
    requires
        0 <= from,
    ensures
        find_from(s, from, c) matches Some(k) ==> from <= k < s.len() && s[k] == c && forall|
            j: int,
        |
            from <= j < k ==> s[j] != c,
        find_from(s, from, c) is None ==> forall|j: int| from <= j < s.len() ==> s[j] != c,
    decreases s.len() - from,
{
    if from < s.len() && s[from] != c {
        lemma_find_from(s, from + 1, c);
    }
}

/// Adds `cur` to `acc` when it is not empty.
pub open spec fn close_alt(acc: Seq<Seq<char>>, cur: Seq<char>) -> Seq<Seq<char>> {
    if cur.len() > 0 {
        acc.push(cur)
    } else {
        acc
    }
}

/// The pieces of `s[i..]` between commas, empty ones dropped, after the
/// pieces `acc` and the piece `cur` under way.
pub open spec fn split_from(s: Seq<char>, i: int, cur: Seq<char>, acc: Seq<Seq<char>>) -> Seq<
    Seq<char>,
>
    decreases s.len() - i,
{
    if i < 0 || i >= s.len() {
        close_alt(acc, cur)
    } else if s[i] == ',' {
        split_from(s, i + 1, seq![], close_alt(acc, cur))
    } else {
        split_from(s, i + 1, cur.push(s[i]), acc)
    }
}

/// The non-empty comma-separated pieces of the body of a list.
pub open spec fn split_alts(s: Seq<char>) -> Seq<Seq<char>> {
    split_from(s, 0, seq![], seq![])
}

/// The delimiter that a one-character separator stands for.
pub open spec fn simple_delimiter(c: char) -> Option<Delimiter> {
    if c == '/' {
        Some(Delimiter::PATH)
    } else if c == '&' {
        Some(Delimiter::QUERY)
    } else if c == '#' {
        Some(Delimiter::PRE_FRAGMENT)
    } else {
        None
    }
}

/// Parses `g` from position `pos` on, given the nodes `ast` and the delimiter
/// trace `trace` of what came before: the complete nodes and trace, or `None`
/// where the pattern is malformed (an unterminated `[` or `{`, a trailing `\`,
/// or a list alternative that is itself malformed).
pub open spec fn parse_from(g: Seq<char>, pos: int, ast: Seq<Node>, trace: Seq<Delimiter>) -> Option<
    (Seq<Node>, Seq<Delimiter>),
>
    decreases g.len(), 1int, g.len() - pos,
{
    if pos < 0 || pos >= g.len() {
        Some((ast, trace))
    } else {
        let c = g[pos];
        if c == '\\' {
            if pos + 1 >= g.len() {
                None
            } else if g[pos + 1] == '?' {
                parse_from(
                    g,
                    pos + 2,
                    ast.push(Node::Delimiter(Delimiter::PRE_QUERY)),
                    trace.push(Delimiter::PRE_QUERY),
                )
            } else {
                parse_from(g, pos + 2, push_char(ast, g[pos + 1]), trace)
            }
        } else if c == '{' {
            match find_from(g, pos + 1, '}') {
                Some(k) if pos < k < g.len() => match parse_alts(split_alts(g.subrange(pos + 1, k)), g.len()) {
                    None => None,
                    Some(alts) => parse_from(g, k + 1, ast.push(Node::List(alts)), trace),
                },
                _ => None,
            }
        } else if c == '[' {
            match find_from(g, pos + 1, ']') {
                Some(k) if pos < k < g.len() => parse_from(
                    g,
                    k + 1,
                    ast.push(Node::Range(g.subrange(pos + 1, k))),
                    trace,
                ),
                _ => None,
            }
        } else if c == '*' {
            if pos + 1 < g.len() && g[pos + 1] == '*' {
                parse_from(g, pos + 2, ast.push(Node::Recursive), trace)
            } else {
                parse_from(g, pos + 1, ast.push(Node::Any), trace)
            }
        } else if c == '?' {
            parse_from(g, pos + 1, ast.push(Node::Single), trace)
        } else if c == ':' {
            if pos + 2 < g.len() && g[pos + 1] == '/' && g[pos + 2] == '/' {
                parse_from(
                    g,
                    pos + 3,
                    ast.push(Node::Delimiter(Delimiter::SCHEME_AUTHORITY)),
                    trace.push(Delimiter::SCHEME_AUTHORITY),
                )
            } else {
                parse_from(
                    g,
                    pos + 1,
                    ast.push(Node::Delimiter(Delimiter::SCHEME_PATH)),
                    trace.push(Delimiter::SCHEME_PATH),
                )
            }
        } else if simple_delimiter(c) is Some {
            let d = simple_delimiter(c)->Some_0;
            parse_from(g, pos + 1, ast.push(Node::Delimiter(d)), trace.push(d))
        } else {
            parse_from(g, pos + 1, push_char(ast, c), trace)
        }
    }
}

/// Parses each alternative of a list as a pattern of its own; `None` if one
/// of them is malformed. Each alternative is shorter than `bound`, the length
/// of the pattern that holds the list.
pub open spec fn parse_alts(alts: Seq<Seq<char>>, bound: nat) -> Option<Seq<Seq<Node>>>
    decreases bound, 0int, alts.len(),
{
    if alts.len() == 0 {
        Some(seq![])
    } else if alts.last().len() < bound {
        match parse_alts(alts.drop_last(), bound) {
            None => None,
            Some(done) => match parse_from(alts.last(), 0, seq![], seq![]) {
                None => None,
                Some(r) => Some(done.push(r.0)),
            },
        }
    } else {
        None
    }
}

/// The nodes and delimiter trace of the glob pattern `g`, or `None` if it is
/// malformed.
pub open spec fn parse_glob(g: Seq<char>) -> Option<(Seq<Node>, Seq<Delimiter>)> {
    parse_from(g, 0, seq![], seq![])
}

/// `nodes_of` grows by one node when the sequence grows by one primitive.
proof fn lemma_nodes_push(s: Seq<Primitive>, p: Primitive)
    ensures
        nodes_of(s.push(p)) == nodes_of(s).push(node_of(p)),
        nodes_of(s.push(p)).len() == s.len() + 1,
{
    assert(nodes_of(s.push(p)) =~= nodes_of(s).push(node_of(p)));
}

/// `nodes_of` loses its last node when the sequence loses its last primitive.
proof fn lemma_nodes_drop_last(s: Seq<Primitive>)
    requires
        s.len() > 0,
    ensures
        nodes_of(s.drop_last()) == nodes_of(s).drop_last(),
        nodes_of(s).last() == node_of(s.last()),
{
    assert(nodes_of(s.drop_last()) =~= nodes_of(s).drop_last());
}

/// The views of a sequence of strings.
pub open spec fn texts_of(s: Seq<String>) -> Seq<Seq<char>> {
    s.map_values(|t: String| t@)
}

/// `alts_of` grows by one alternative when the list grows by one.
proof fn lemma_alts_push(s: Seq<AST>, a: AST)
    ensures
        alts_of(s.push(a)) == alts_of(s).push(nodes_of(a@)),
{
    assert(alts_of(s.push(a)) =~= alts_of(s).push(nodes_of(a@)));
}

/// Once a prefix of the alternatives fails to parse, so do all of them.
proof fn lemma_parse_alts_prefix_fails(alts: Seq<Seq<char>>, n: int, bound: nat)
    requires
        0 <= n <= alts.len(),
        parse_alts(alts.take(n), bound) is None,
    ensures
        parse_alts(alts, bound) is None,
    decreases alts.len(),
{
    if n == alts.len() {
        assert(alts.take(n) =~= alts);
    } else {
        assert(alts.drop_last().take(n) =~= alts.take(n));
        lemma_parse_alts_prefix_fails(alts.drop_last(), n, bound);
    }
}

/// Splits the body of a list into its non-empty comma-separated pieces.
fn split_list(body: &str) -> (r: Vec<String>)
    ensures
        texts_of(r@) == split_alts(body@),
        forall|q: int| 0 <= q < r@.len() ==> r@[q]@.len() <= body@.len(),
{
    let len = body.unicode_len();
    let mut pieces: Vec<String> = Vec::new();
    let mut cur_start: usize = 0;
    let mut i: usize = 0;
    assert(body@.subrange(0, 0) =~= Seq::<char>::empty());
    assert(texts_of(pieces@) =~= Seq::<Seq<char>>::empty());
    while i < len
        invariant
            len == body@.len(),
            cur_start <= i <= len,
            split_from(body@, i as int, body@.subrange(cur_start as int, i as int), texts_of(pieces@))
                == split_alts(body@),
            forall|q: int| 0 <= q < pieces@.len() ==> pieces@[q]@.len() <= body@.len(),
        decreases len - i,
    {
        let ghost cur = body@.subrange(cur_start as int, i as int);
        if body.get_char(i) == ',' {
            if cur_start < i {
                let ghost before = pieces@;
                let piece = String::from_str(body.substring_char(cur_start, i));
                pieces.push(piece);
                assert(texts_of(pieces@) =~= texts_of(before).push(cur));
            }
            cur_start = i + 1;
            assert(body@.subrange(cur_start as int, i + 1) =~= Seq::<char>::empty());
        } else {
            assert(body@.subrange(cur_start as int, i + 1) =~= cur.push(body@[i as int]));
        }
        i = i + 1;
    }
    if cur_start < i {
        let ghost cur = body@.subrange(cur_start as int, i as int);
        let ghost before = pieces@;
        let piece = String::from_str(body.substring_char(cur_start, i));
        pieces.push(piece);
        assert(texts_of(pieces@) =~= texts_of(before).push(cur));
    }
    pieces
}

/// A glob pattern under parse: the text, a cursor into it, and what has been
/// produced so far.
#[derive(Debug)]
pub struct Parser {
    glob_pattern: String,
    pos: usize,
    ast: AST,
    delimiter_order: Vec<Delimiter>,
}

impl Parser {
    /// The pattern text.
    pub closed spec fn glob(&self) -> Seq<char> {
        self.glob_pattern@
    }

    /// The cursor: the index of the character under consideration.
    pub closed spec fn cursor(&self) -> int {
        self.pos as int
    }

    /// The nodes produced so far.
    pub closed spec fn nodes(&self) -> Seq<Node> {
        nodes_of(self.ast@)
    }

    /// The delimiters met so far, in order.
    pub closed spec fn trace(&self) -> Seq<Delimiter> {
        self.delimiter_order@
    }

    /// The cursor stands within the text or just past its end.
    pub closed spec fn inv(&self) -> bool {
        self.pos <= self.glob_pattern@.len() <= usize::MAX
    }

    /// A parser at the start of `glob`, with nothing produced.
    pub fn new(glob: &str) -> (p: Parser)
        ensures
            p.inv(),
            p.glob() == glob@,
            p.cursor() == 0,
            p.nodes() == Seq::<Node>::empty(),
            p.trace() == Seq::<Delimiter>::empty(),
    {
        let _ = glob.unicode_len();
        let p = Parser { glob_pattern: String::from_str(glob), pos: 0, ast: vec![], delimiter_order: vec![] };
        proof {
            assert(nodes_of(p.ast@) =~= Seq::<Node>::empty());
        }
        p
    }

    /// The nodes produced so far.
    pub fn ast(&self) -> (r: &AST)
        ensures
            nodes_of(r@) == self.nodes(),
    {
        &self.ast
    }

    /// The delimiters met so far, in order.
    pub fn delimiter_order(&self) -> (r: &Vec<Delimiter>)
        ensures
            r@ == self.trace(),
    {
        &self.delimiter_order
    }

    fn is_eol(&self) -> (r: bool)
        ensures
            r == (self.pos >= self.glob_pattern@.len()),
    {
        self.pos >= self.glob_pattern.as_str().unicode_len()
    }

    fn char(&self) -> (c: char)
        requires
            self.pos < self.glob_pattern@.len(),
        ensures
            c == self.glob_pattern@[self.pos as int],
    {
        self.glob_pattern.as_str().get_char(self.pos)
    }

    fn advance(&mut self)
        requires
            old(self).inv(),
            old(self).pos < old(self).glob_pattern@.len(),
        ensures
            final(self).pos == old(self).pos + 1,
            final(self).glob_pattern@ == old(self).glob_pattern@,
            final(self).ast == old(self).ast,
            final(self).delimiter_order == old(self).delimiter_order,
    {
        self.pos = self.pos + 1;
    }

    fn peek(&self) -> (r: Option<char>)
        requires
            self.inv(),
        ensures
            r == (if self.pos + 1 < self.glob_pattern@.len() {
                Some(self.glob_pattern@[self.pos + 1])
            } else {
                None
            }),
    {
        let len = self.glob_pattern.as_str().unicode_len();
        if self.pos < len && self.pos + 1 < len {
            Some(self.glob_pattern.as_str().get_char(self.pos + 1))
        } else {
            None
        }
    }

    fn peek_multiple(&self, n: usize) -> (r: Option<&str>)
        requires
            self.inv(),
        ensures
            r matches Some(s) ==> self.pos + 1 + n <= self.glob_pattern@.len() && s@
                == self.glob_pattern@.subrange(self.pos + 1, self.pos + 1 + n),
            r is None ==> self.pos + 1 + n > self.glob_pattern@.len(),
    {
        let len = self.glob_pattern.as_str().unicode_len();
        if self.pos < len && n <= len - self.pos - 1 {
            Some(self.glob_pattern.as_str().substring_char(self.pos + 1, self.pos + 1 + n))
        } else {
            None
        }
    }

    fn push_delimiter(&mut self, delimiter: Delimiter)
        ensures
            final(self).pos == old(self).pos,
            final(self).glob_pattern@ == old(self).glob_pattern@,
            nodes_of(final(self).ast@) == nodes_of(old(self).ast@).push(Node::Delimiter(delimiter)),
            final(self).delimiter_order@ == old(self).delimiter_order@.push(delimiter),
    {
        self.delimiter_order.push(delimiter);
        self.ast.push(Primitive::Delimiter(delimiter));
        proof {
            lemma_nodes_push(old(self).ast@, Primitive::Delimiter(delimiter));
        }
    }

    fn push_node(&mut self, p: Primitive)
        ensures
            final(self).pos == old(self).pos,
            final(self).glob_pattern@ == old(self).glob_pattern@,
            final(self).delimiter_order == old(self).delimiter_order,
            nodes_of(final(self).ast@) == nodes_of(old(self).ast@).push(node_of(p)),
    {
        proof {
            lemma_nodes_push(self.ast@, p);
        }
        self.ast.push(p);
    }

    fn parse_literal(&mut self)
        requires
            old(self).inv(),
            old(self).pos < old(self).glob_pattern@.len(),
        ensures
            final(self).pos == old(self).pos,
            final(self).glob_pattern@ == old(self).glob_pattern@,
            final(self).delimiter_order == old(self).delimiter_order,
            nodes_of(final(self).ast@) == push_char(
                nodes_of(old(self).ast@),
                old(self).glob_pattern@[old(self).pos as int],
            ),
    {
        let ghost g = self.glob_pattern@;
        let ghost c = g[self.pos as int];
        let ghost before = self.ast@;
        let ch = String::from_str(self.glob_pattern.as_str().substring_char(self.pos, self.pos + 1));
        assert(ch@ =~= seq![c]);
        let last = self.ast.pop();
        match last {
            Some(Primitive::Literal(text)) => {
                proof {
                    lemma_nodes_drop_last(before);
                }
                let ghost old_text = text@;
                let mut text = text;
                text.append(ch.as_str());
                assert(text@ =~= old_text.push(c));
                self.push_node(Primitive::Literal(text));
            },
            Some(other) => {
                proof {
                    lemma_nodes_drop_last(before);
                    assert(before.drop_last().push(other) =~= before);
                }
                self.push_node(other);
                self.push_node(Primitive::Literal(ch));
            },
            None => {
                self.push_node(Primitive::Literal(ch));
            },
        }
    }

    fn parse_range(&mut self) -> (r: Result<(), GlobError>)
        requires
            old(self).inv(),
            old(self).pos < old(self).glob_pattern@.len(),
            old(self).glob_pattern@[old(self).pos as int] == '[',
        ensures
            final(self).inv(),
            r is Err ==> final(self).ast == old(self).ast,
            final(self).glob_pattern@ == old(self).glob_pattern@,
            final(self).delimiter_order == old(self).delimiter_order,
            ({
                let g = old(self).glob_pattern@;
                let pos = old(self).pos as int;
                match find_from(g, pos + 1, ']') {
                    Some(k) => r is Ok && final(self).pos == k && pos < k < g.len() && nodes_of(
                        final(self).ast@,
                    ) == nodes_of(old(self).ast@).push(Node::Range(g.subrange(pos + 1, k))),
                    None => r is Err && r->Err_0 == GlobError::MalformedPattern,
                }
            }),
    {
        let ghost g = self.glob_pattern@;
        let ghost open = self.pos as int;
        proof {
            lemma_find_from(g, open + 1, ']');
        }
        self.advance();
        let start = self.pos;
        while !self.is_eol() && self.char() != ']'
            invariant
                self.inv(),
                self.glob_pattern@ == g,
                g == old(self).glob_pattern@,
                self.ast == old(self).ast,
                self.delimiter_order == old(self).delimiter_order,
                start == open + 1,
                start <= self.pos <= g.len(),
                forall|j: int| start <= j < self.pos ==> g[j] != ']',
            decreases g.len() - self.pos,
        {
            self.advance();
        }
        if self.is_eol() {
            return Err(GlobError::MalformedPattern);
        }
        let range = String::from_str(self.glob_pattern.as_str().substring_char(start, self.pos));
        self.push_node(Primitive::Range(range));
        Ok(())
    }

    fn parse_list(&mut self) -> (r: Result<(), GlobError>)
        requires
            old(self).inv(),
            old(self).pos < old(self).glob_pattern@.len(),
            old(self).glob_pattern@[old(self).pos as int] == '{',
        ensures
            final(self).inv(),
            r is Err ==> final(self).ast == old(self).ast,
            final(self).glob_pattern@ == old(self).glob_pattern@,
            final(self).delimiter_order == old(self).delimiter_order,
            ({
                let g = old(self).glob_pattern@;
                let pos = old(self).pos as int;
                match find_from(g, pos + 1, '}') {
                    Some(k) => match parse_alts(split_alts(g.subrange(pos + 1, k)), g.len()) {
                        Some(alts) => r is Ok && final(self).pos == k && pos < k < g.len()
                            && nodes_of(final(self).ast@) == nodes_of(old(self).ast@).push(
                            Node::List(alts),
                        ),
                        None => r is Err && r->Err_0 == GlobError::MalformedPattern,
                    },
                    None => r is Err && r->Err_0 == GlobError::MalformedPattern,
                }
            }),
        decreases old(self).glob_pattern@.len(), 1int,
    {
        let ghost g = self.glob_pattern@;
        let ghost open = self.pos as int;
        proof {
            lemma_find_from(g, open + 1, '}');
        }
        self.advance();
        let start = self.pos;
        while !self.is_eol() && self.char() != '}'
            invariant
                self.inv(),
                self.glob_pattern@ == g,
                g == old(self).glob_pattern@,
                self.ast == old(self).ast,
                self.delimiter_order == old(self).delimiter_order,
                start == open + 1,
                start <= self.pos <= g.len(),
                forall|j: int| start <= j < self.pos ==> g[j] != '}',
            decreases g.len() - self.pos,
        {
            self.advance();
        }
        if self.is_eol() {
            return Err(GlobError::MalformedPattern);
        }
        let body = String::from_str(self.glob_pattern.as_str().substring_char(start, self.pos));
        let pieces = split_list(body.as_str());
        let ghost texts = texts_of(pieces@);
        let mut processed: Vec<AST> = Vec::new();
        let mut i: usize = 0;
        assert(texts.take(0) =~= Seq::<Seq<char>>::empty());
        assert(alts_of(processed@) =~= Seq::<Seq<Node>>::empty());
        while i < pieces.len()
            invariant
                self.inv(),
                self.glob_pattern@ == g,
                g == old(self).glob_pattern@,
                self.ast == old(self).ast,
                self.delimiter_order == old(self).delimiter_order,
                open < self.pos < g.len(),
                open == old(self).pos,
                find_from(g, open + 1, '}') == Some(self.pos as int),
                texts == split_alts(g.subrange(open + 1, self.pos as int)),
                texts == texts_of(pieces@),
                forall|q: int| 0 <= q < texts.len() ==> texts[q].len() < g.len(),
                0 <= i <= pieces.len(),
                parse_alts(texts.take(i as int), g.len()) == Some(alts_of(processed@)),
            decreases pieces.len() - i,
        {
            let mut x = Parser::new(pieces[i].as_str());
            assert(texts.take(i + 1).drop_last() =~= texts.take(i as int));
            assert(texts.take(i + 1).last() == texts[i as int]);
            match x.generate_ast() {
                Ok(()) => {},
                Err(e) => {
                    proof {
                        lemma_parse_alts_prefix_fails(texts, i + 1, g.len());
                    }
                    return Err(e);
                },
            }
            proof {
                lemma_alts_push(processed@, x.ast);
            }
            processed.push(x.ast);
            i = i + 1;
        }
        assert(texts.take(i as int) =~= texts);
        self.push_node(Primitive::List(processed));
        Ok(())
    }

    fn parse(&mut self) -> (r: Result<(), GlobError>)
        requires
            old(self).inv(),
        ensures
            final(self).inv(),
            final(self).glob_pattern@ == old(self).glob_pattern@,
            match parse_from(
                old(self).glob_pattern@,
                old(self).pos as int,
                nodes_of(old(self).ast@),
                old(self).delimiter_order@,
            ) {
                Some(res) => r is Ok && nodes_of(final(self).ast@) == res.0
                    && final(self).delimiter_order@ == res.1,
                None => r is Err && r->Err_0 == GlobError::MalformedPattern,
            },
        decreases old(self).glob_pattern@.len(), 2int,
    {
        let ghost g = self.glob_pattern@;
        let ghost target = parse_from(
            g,
            self.pos as int,
            nodes_of(self.ast@),
            self.delimiter_order@,
        );
        while !self.is_eol()
            invariant
                self.inv(),
                self.glob_pattern@ == g,
                g == old(self).glob_pattern@,
                parse_from(g, self.pos as int, nodes_of(self.ast@), self.delimiter_order@)
                    == target,
                target == parse_from(
                    g,
                    old(self).pos as int,
                    nodes_of(old(self).ast@),
                    old(self).delimiter_order@,
                ),
            decreases g.len() - self.pos,
        {
            let c = self.char();
            if c == '\\' {
                self.advance();
                if self.is_eol() {
                    return Err(GlobError::MalformedPattern);
                }
                if self.char() == '?' {
                    self.push_delimiter(Delimiter::PRE_QUERY);
                } else {
                    self.parse_literal();
                }
            } else if c == '{' {
                match self.parse_list() {
                    Ok(()) => {},
                    Err(e) => {
                        return Err(e);
                    },
                }
            } else if c == '[' {
                match self.parse_range() {
                    Ok(()) => {},
                    Err(e) => {
                        return Err(e);
                    },
                }
            } else if c == '*' {
                match self.peek() {
                    Some('*') => {
                        self.advance();
                        self.push_node(Primitive::Recursive);
                    },
                    _ => {
                        self.push_node(Primitive::Any);
                    },
                }
            } else if c == '?' {
                self.push_node(Primitive::Single);
            } else if c == ':' {
                let authority = match self.peek_multiple(2) {
                    Some(s) => s.get_char(0) == '/' && s.get_char(1) == '/',
                    None => false,
                };
                if authority {
                    self.push_delimiter(Delimiter::SCHEME_AUTHORITY);
                    self.advance();
                    self.advance();
                } else {
                    self.push_delimiter(Delimiter::SCHEME_PATH);
                }
            } else if c == '/' {
                self.push_delimiter(Delimiter::PATH);
            } else if c == '&' {
                self.push_delimiter(Delimiter::QUERY);
            } else if c == '#' {
                self.push_delimiter(Delimiter::PRE_FRAGMENT);
            } else {
                self.parse_literal();
            }
            self.advance();
        }
        Ok(())
    }

    /// Parses the rest of the pattern, from the cursor on. On success the
    /// nodes and the delimiter trace are those of `parse_from`; a malformed
    /// pattern gives `MalformedPattern`.
    pub fn generate_ast(&mut self) -> (r: Result<(), GlobError>)
        requires
            old(self).inv(),
        ensures
            final(self).inv(),
            final(self).glob() == old(self).glob(),
            match parse_from(old(self).glob(), old(self).cursor(), old(self).nodes(), old(self).trace()) {
                Some(res) => r is Ok && final(self).nodes() == res.0 && final(self).trace() == res.1,
                None => r is Err && r->Err_0 == GlobError::MalformedPattern,
            },
        decreases old(self).glob().len(), 3int,
    {
        self.parse()
    }
}

/// Whether `c` has a meaning of its own in a glob pattern.
pub open spec fn is_special(c: char) -> bool {
    c == '\\' || c == '{' || c == '[' || c == '*' || c == '?' || c == ':' || c == '/' || c == '&'
        || c == '#'
}

/// The nodes of the first `n` characters of a pattern without special glyphs.
pub open spec fn plain_nodes(s: Seq<char>, n: int) -> Seq<Node> {
    if n <= 0 {
        seq![]
    } else {
        seq![Node::Literal(s.take(n))]
    }
}

proof fn lemma_plain_parse_from(s: Seq<char>, i: int)
    requires
        0 <= i <= s.len(),
        forall|j: int| 0 <= j < s.len() ==> !is_special(#[trigger] s[j]),
    ensures
        parse_from(s, i, plain_nodes(s, i), seq![]) == Some(
            (plain_nodes(s, s.len() as int), Seq::<Delimiter>::empty()),
        ),
    decreases s.len() - i,
{
    if i < s.len() {
        let c = s[i];
        assert(!is_special(c));
        assert(push_char(plain_nodes(s, i), c) =~= plain_nodes(s, i + 1)) by {
            if i > 0 {
                assert(s.take(i).push(c) =~= s.take(i + 1));
            } else {
                assert(seq![c] =~= s.take(1));
            }
        }
        lemma_plain_parse_from(s, i + 1);
    }
}

/// A pattern without special glyphs parses into a single literal holding
/// all of it (no node at all when it is empty), and meets no delimiter.
pub proof fn lemma_plain_glob(s: Seq<char>)
    requires
        forall|j: int| 0 <= j < s.len() ==> !is_special(#[trigger] s[j]),
    ensures
        parse_glob(s) == Some(
            (
                if s.len() == 0 {
                    Seq::<Node>::empty()
                } else {
                    seq![Node::Literal(s)]
                },
                Seq::<Delimiter>::empty(),
            ),
        ),
{
    lemma_plain_parse_from(s, 0);
    assert(plain_nodes(s, 0) =~= Seq::<Node>::empty());
    assert(s.take(s.len() as int) =~= s);
}

/// Positions `i` and `i + 1` of `ast` both hold a `Literal` node.
pub open spec fn literal_pair(ast: Seq<Node>, i: int) -> bool {
    ast[i] is Literal && ast[i + 1] is Literal
}

/// No two `Literal` nodes stand next to each other.
pub open spec fn literals_merged(ast: Seq<Node>) -> bool {
    forall|i: int| 0 <= i < ast.len() - 1 ==> !#[trigger] literal_pair(ast, i)
}

/// The alternatives of a list node are merged throughout; other nodes hold
/// no alternatives.
pub open spec fn alts_merged(n: Node) -> bool
    decreases n,
{
    match n {
        Node::List(alts) => forall|j: int| 0 <= j < alts.len() ==> deeply_merged(#[trigger] alts[j]),
        _ => true,
    }
}

/// No two `Literal` nodes stand next to each other, neither in `ast` nor in
/// any alternative of its lists, at any depth.
pub open spec fn deeply_merged(ast: Seq<Node>) -> bool
    decreases ast,
{
    literals_merged(ast) && forall|i: int| 0 <= i < ast.len() ==> alts_merged(#[trigger] ast[i])
}

proof fn lemma_push_merged(ast: Seq<Node>, n: Node)
    requires
        deeply_merged(ast),
        !(n is Literal),
        alts_merged(n),
    ensures
        deeply_merged(ast.push(n)),
{
    let r = ast.push(n);
    assert forall|i: int| 0 <= i < r.len() - 1 implies !#[trigger] literal_pair(r, i) by {
        if i + 1 < ast.len() {
            assert(literal_pair(r, i) == literal_pair(ast, i));
        }
    }
    assert forall|i: int| 0 <= i < r.len() implies alts_merged(#[trigger] r[i]) by {
        if i < ast.len() {
            assert(r[i] == ast[i]);
        }
    }
}

proof fn lemma_push_char_merged(ast: Seq<Node>, c: char)
    requires
        deeply_merged(ast),
    ensures
        deeply_merged(push_char(ast, c)),
{
    let r = push_char(ast, c);
    if ast.len() > 0 && ast.last() is Literal {
        assert forall|i: int| 0 <= i < r.len() - 1 implies !#[trigger] literal_pair(r, i) by {
            assert(r[i] == ast[i]);
            if i + 1 < ast.len() - 1 {
                assert(r[i + 1] == ast[i + 1]);
            }
            assert(literal_pair(r, i) == literal_pair(ast, i));
        }
        assert forall|i: int| 0 <= i < r.len() implies alts_merged(#[trigger] r[i]) by {
            if i < ast.len() - 1 {
                assert(r[i] == ast[i]);
            }
        }
    } else {
        assert forall|i: int| 0 <= i < r.len() - 1 implies !#[trigger] literal_pair(r, i) by {
            if i + 1 < ast.len() {
                assert(literal_pair(r, i) == literal_pair(ast, i));
            } else {
                assert(!(ast[i] is Literal));
            }
        }
        assert forall|i: int| 0 <= i < r.len() implies alts_merged(#[trigger] r[i]) by {
            if i < ast.len() {
                assert(r[i] == ast[i]);
            }
        }
    }
}

proof fn lemma_parse_alts_merged(alts: Seq<Seq<char>>, bound: nat)
    ensures
        parse_alts(alts, bound) matches Some(r) ==> forall|j: int|
            0 <= j < r.len() ==> deeply_merged(#[trigger] r[j]),
    decreases bound, 0int, alts.len(),
{
    if alts.len() > 0 && alts.last().len() < bound {
        lemma_parse_alts_merged(alts.drop_last(), bound);
        assert(deeply_merged(Seq::<Node>::empty()));
        lemma_parse_from_merged(alts.last(), 0, seq![], seq![]);
        if let Some(r) = parse_alts(alts, bound) {
            let done = parse_alts(alts.drop_last(), bound)->Some_0;
            assert forall|j: int| 0 <= j < r.len() implies deeply_merged(#[trigger] r[j]) by {
                if j < done.len() {
                    assert(r[j] == done[j]);
                }
            }
        }
    }
}

proof fn lemma_parse_from_merged(g: Seq<char>, pos: int, ast: Seq<Node>, trace: Seq<Delimiter>)
    requires
        deeply_merged(ast),
    ensures
        parse_from(g, pos, ast, trace) matches Some(res) ==> deeply_merged(res.0),
    decreases g.len(), 1int, g.len() - pos,
{
    if 0 <= pos < g.len() {
        let c = g[pos];
        if c == '\\' {
            if pos + 1 < g.len() {
                if g[pos + 1] == '?' {
                    let n = Node::Delimiter(Delimiter::PRE_QUERY);
                    lemma_push_merged(ast, n);
                    lemma_parse_from_merged(g, pos + 2, ast.push(n), trace.push(Delimiter::PRE_QUERY));
                } else {
                    lemma_push_char_merged(ast, g[pos + 1]);
                    lemma_parse_from_merged(g, pos + 2, push_char(ast, g[pos + 1]), trace);
                }
            }
        } else if c == '{' {
            match find_from(g, pos + 1, '}') {
                Some(k) if pos < k < g.len() => match parse_alts(split_alts(g.subrange(pos + 1, k)), g.len()) {
                    Some(alts) => {
                        lemma_parse_alts_merged(split_alts(g.subrange(pos + 1, k)), g.len());
                        lemma_push_merged(ast, Node::List(alts));
                        lemma_parse_from_merged(g, k + 1, ast.push(Node::List(alts)), trace);
                    },
                    None => {},
                },
                _ => {},
            }
        } else if c == '[' {
            match find_from(g, pos + 1, ']') {
                Some(k) if pos < k < g.len() => {
                    let n = Node::Range(g.subrange(pos + 1, k));
                    lemma_push_merged(ast, n);
                    lemma_parse_from_merged(g, k + 1, ast.push(n), trace);
                },
                _ => {},
            }
        } else if c == '*' {
            if pos + 1 < g.len() && g[pos + 1] == '*' {
                lemma_push_merged(ast, Node::Recursive);
                lemma_parse_from_merged(g, pos + 2, ast.push(Node::Recursive), trace);
            } else {
                lemma_push_merged(ast, Node::Any);
                lemma_parse_from_merged(g, pos + 1, ast.push(Node::Any), trace);
            }
        } else if c == '?' {
            lemma_push_merged(ast, Node::Single);
            lemma_parse_from_merged(g, pos + 1, ast.push(Node::Single), trace);
        } else if c == ':' {
            let a = Node::Delimiter(Delimiter::SCHEME_AUTHORITY);
            let p = Node::Delimiter(Delimiter::SCHEME_PATH);
            if pos + 2 < g.len() && g[pos + 1] == '/' && g[pos + 2] == '/' {
                lemma_push_merged(ast, a);
                lemma_parse_from_merged(g, pos + 3, ast.push(a), trace.push(Delimiter::SCHEME_AUTHORITY));
            } else {
                lemma_push_merged(ast, p);
                lemma_parse_from_merged(g, pos + 1, ast.push(p), trace.push(Delimiter::SCHEME_PATH));
            }
        } else if simple_delimiter(c) is Some {
            let d = simple_delimiter(c)->Some_0;
            lemma_push_merged(ast, Node::Delimiter(d));
            lemma_parse_from_merged(g, pos + 1, ast.push(Node::Delimiter(d)), trace.push(d));
        } else {
            lemma_push_char_merged(ast, c);
            lemma_parse_from_merged(g, pos + 1, push_char(ast, c), trace);
        }
    }
}

/// Parsing merges adjacent literal characters completely: the nodes of a
/// pattern never hold two `Literal` nodes in a row, and neither do the
/// alternatives of its lists, at any depth.
pub proof fn lemma_literals_merged(g: Seq<char>)
    ensures
        parse_glob(g) matches Some(res) ==> deeply_merged(res.0),
{
    assert(deeply_merged(Seq::<Node>::empty()));
    lemma_parse_from_merged(g, 0, seq![], seq![]);
}

} // verus!
