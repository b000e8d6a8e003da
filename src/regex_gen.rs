use vstd::prelude::*;
use vstd::string::*;

use crate::error::GlobError;
use crate::parser::{is_special, lemma_plain_glob, parse_glob, Parser};
use crate::primitives::{alts_of, nodes_of, Delimiter, Node, Primitive, AST};

verus! {

/// The regex text of a delimiter.
pub open spec fn delimiter_regex(d: Delimiter) -> Seq<char> {
    match d {
        Delimiter::SCHEME_PATH => seq![':'],
        Delimiter::SCHEME_AUTHORITY => seq![':', '/', '/'],
        Delimiter::PATH => seq!['/'],
        Delimiter::PRE_QUERY => seq!['\\', '?'],
        Delimiter::QUERY => seq!['&'],
        Delimiter::PRE_FRAGMENT => seq!['#'],
    }
}

/// The regex text of `**`: whole path segments, then a partial one.
pub open spec fn recursive_regex() -> Seq<char> {
    seq!['(', '?', ':', '.', '*', '/', ')', '*', '[', '^', '/', ']', '*']
}

/// The regex text of one node.
pub open spec fn node_regex(n: Node) -> Seq<char>
    decreases n,
{
    match n {
        Node::Single => seq!['.'],
        Node::Any => seq!['.', '*'],
        Node::Recursive => recursive_regex(),
        Node::Literal(text) => text,
        Node::Range(spec) => seq!['['] + spec + seq![']'],
        Node::List(alts) => seq!['(', '?', ':'] + alts_regex(alts) + seq![')'],
        Node::Delimiter(d) => delimiter_regex(d),
    }
}

/// The regex text of a sequence of nodes: that of each node, in order.
pub open spec fn seq_regex(s: Seq<Node>) -> Seq<char>
    decreases s,
{
    if s.len() == 0 {
        seq![]
    } else {
        seq_regex(s.drop_last()) + node_regex(s.last())
    }
}

/// The regex texts of the alternatives of a list, separated by `|`.
pub open spec fn alts_regex(alts: Seq<Seq<Node>>) -> Seq<char>
    decreases alts,
{
    if alts.len() == 0 {
        seq![]
    } else if alts.len() == 1 {
        seq_regex(alts[0])
    } else {
        alts_regex(alts.drop_last()) + seq!['|'] + seq_regex(alts.last())
    }
}

/// `s` bound to the whole subject: `^s$`.
pub open spec fn anchored(s: Seq<char>) -> Seq<char> {
    seq!['^'] + s + seq!['$']
}

/// The anchored regex text of the glob pattern `g`, or `None` where `g` is
/// malformed.
pub open spec fn glob_regex(g: Seq<char>) -> Option<Seq<char>> {
    match parse_glob(g) {
        Some(res) => Some(anchored(seq_regex(res.0))),
        None => None,
    }
}

/// A pattern without special glyphs becomes itself as a regex, between `^`
/// and `$`.
pub proof fn lemma_plain_glob_regex(s: Seq<char>)
    requires
        forall|j: int| 0 <= j < s.len() ==> !is_special(#[trigger] s[j]),
    ensures
        glob_regex(s) == Some(anchored(s)),
{
    lemma_plain_glob(s);
    if s.len() > 0 {
        let nodes = seq![Node::Literal(s)];
        assert(nodes.drop_last() =~= Seq::<Node>::empty());
        assert(seq_regex(nodes.drop_last()) =~= Seq::<char>::empty());
        assert(node_regex(nodes.last()) == s);
        assert(seq_regex(nodes) =~= s);
    }
}

/// Renders `ast` as regex text; anchored with `^` and `$` unless
/// `ignore_start_end`.
fn regex_generator(ast: &AST, ignore_start_end: bool) -> (r: String)
    ensures
        r@ == (if ignore_start_end {
            seq_regex(nodes_of(ast@))
        } else {
            anchored(seq_regex(nodes_of(ast@)))
        }),
    decreases ast,
{
    let ghost nodes = nodes_of(ast@);
    let mut regex_str = String::new();
    if !ignore_start_end {
        proof {
            reveal_strlit("^");
        }
        regex_str.append("^");
    }
    let ghost head = regex_str@;
    assert(head == (if ignore_start_end { seq![] } else { seq!['^'] }));
    let mut i: usize = 0;
    assert(nodes.take(0) =~= Seq::<Node>::empty());
    assert(head + seq_regex(nodes.take(0)) =~= head);
    while i < ast.len()
        invariant
            0 <= i <= ast@.len(),
            nodes == nodes_of(ast@),
            head == (if ignore_start_end { seq![] } else { seq!['^'] }),
            regex_str@ == head + seq_regex(nodes.take(i as int)),
        decreases ast@.len() - i,
    {
        let ghost before = regex_str@;
        let ghost n = nodes[i as int];
        assert(nodes.take(i + 1).drop_last() =~= nodes.take(i as int));
        assert(nodes.take(i + 1).last() == n);
        match &ast[i] {
            Primitive::Single => {
                proof {
                    reveal_strlit(".");
                }
                regex_str.append(".");
            },
            Primitive::Any => {
                proof {
                    reveal_strlit(".*");
                }
                regex_str.append(".*");
            },
            Primitive::Recursive => {
                proof {
                    reveal_strlit("(?:.*/)*[^/]*");
                }
                regex_str.append("(?:.*/)*[^/]*");
                assert("(?:.*/)*[^/]*"@ =~= recursive_regex());
            },
            Primitive::Literal(text) => {
                regex_str.append(text.as_str());
            },
            Primitive::Range(range) => {
                proof {
                    reveal_strlit("[");
                    reveal_strlit("]");
                }
                regex_str.append("[");
                regex_str.append(range.as_str());
                regex_str.append("]");
                assert(regex_str@ =~= before + node_regex(n));
            },
            Primitive::List(list) => {
                let ghost alts = alts_of(list@);
                proof {
                    reveal_strlit("(?:");
                }
                regex_str.append("(?:");
                let ghost open = regex_str@;
                let mut j: usize = 0;
                assert(alts.take(0) =~= Seq::<Seq<Node>>::empty());
                assert(open + alts_regex(alts.take(0)) =~= open);
                while j < list.len()
                    invariant
                        0 <= j <= list@.len(),
                        alts == alts_of(list@),
                        regex_str@ == open + alts_regex(alts.take(j as int)),
                        decreases_to!(ast => list),
                    decreases list@.len() - j,
                {
                    let ghost mid = regex_str@;
                    assert(alts.take(j + 1).drop_last() =~= alts.take(j as int));
                    if j > 0 {
                        proof {
                            reveal_strlit("|");
                        }
                        regex_str.append("|");
                    }
                    proof {
                        assert(decreases_to!(list => list[j as int]));
                    }
                    let item = regex_generator(&list[j], true);
                    regex_str.append(item.as_str());
                    assert(alts[j as int] == nodes_of(list@[j as int]@));
                    assert(alts.take(j + 1).last() == alts[j as int]);
                    if j == 0 {
                        assert(alts.take(1)[0] == alts[0]);
                    } else {
                        assert(regex_str@ =~= mid + seq!['|'] + seq_regex(alts[j as int]));
                    }
                    assert(regex_str@ =~= open + alts_regex(alts.take(j + 1)));
                    j = j + 1;
                }
                assert(alts.take(j as int) =~= alts);
                proof {
                    reveal_strlit(")");
                }
                regex_str.append(")");
                assert(regex_str@ =~= before + node_regex(n));
            },
            Primitive::Delimiter(d) => {
                match d {
                    Delimiter::SCHEME_PATH => {
                        proof {
                            reveal_strlit(":");
                        }
                        regex_str.append(":");
                    },
                    Delimiter::SCHEME_AUTHORITY => {
                        proof {
                            reveal_strlit("://");
                        }
                        regex_str.append("://");
                    },
                    Delimiter::PATH => {
                        proof {
                            reveal_strlit("/");
                        }
                        regex_str.append("/");
                    },
                    Delimiter::PRE_QUERY => {
                        proof {
                            reveal_strlit("\\?");
                        }
                        regex_str.append("\\?");
                    },
                    Delimiter::QUERY => {
                        proof {
                            reveal_strlit("&");
                        }
                        regex_str.append("&");
                    },
                    Delimiter::PRE_FRAGMENT => {
                        proof {
                            reveal_strlit("#");
                        }
                        regex_str.append("#");
                    },
                }
                assert(regex_str@ =~= before + node_regex(n));
            },
        }
        assert(regex_str@ =~= head + seq_regex(nodes.take(i + 1)));
        i = i + 1;
    }
    assert(nodes.take(i as int) =~= nodes);
    if !ignore_start_end {
        proof {
            reveal_strlit("$");
        }
        regex_str.append("$");
        assert(regex_str@ =~= anchored(seq_regex(nodes)));
    } else {
        assert(regex_str@ =~= seq_regex(nodes));
    }
    regex_str
}

/// The anchored regex text of a glob pattern, or `MalformedPattern` where the
/// pattern does not parse.
pub fn to_regex_str(glob: &str) -> (r: Result<String, GlobError>)
    ensures
        match glob_regex(glob@) {
            Some(text) => r is Ok && r->Ok_0@ == text,
            None => r is Err && r->Err_0 == GlobError::MalformedPattern,
        },
{
    let mut parser = Parser::new(glob);
    match parser.generate_ast() {
        Ok(()) => Ok(regex_generator(parser.ast(), false)),
        Err(e) => Err(e),
    }
}

/// A compiled regular expression of the regex crate.
#[verifier::external_type_specification]
#[verifier::external_body]
pub struct ExRegex(regex::Regex);

/// The error that the regex crate gives for a pattern it refuses.
#[verifier::external_type_specification]
#[verifier::external_body]
pub struct ExRegexError(regex::Error);

/// Whether the regex crate, with its default limits, accepts `pattern`.
pub uninterp spec fn regex_compiles(pattern: Seq<char>) -> bool;

/// Relies on `regex::Regex::new`: whether it succeeds depends on the pattern
/// alone (its syntax, and the default size limit of the compiled program).
pub assume_specification[ regex::Regex::new ](re: &str) -> (r: Result<regex::Regex, regex::Error>)
    ensures
        r is Ok <==> regex_compiles(re@),
;

/// Whether the regex crate, with its default limits, finds a match of
/// `pattern` in `haystack`.
pub uninterp spec fn regex_matches(pattern: Seq<char>, haystack: Seq<char>) -> bool;

/// Relies on `regex::Regex::new` and `regex::Regex::is_match`: compiles
/// `pattern` and tests `haystack` against it. `None` where the pattern is
/// refused; otherwise the answer, which depends on the two texts alone.
#[verifier::external_body]
pub(crate) fn regex_is_match(pattern: &str, haystack: &str) -> (r: Option<bool>)
    ensures
        r is Some <==> regex_compiles(pattern@),
        r matches Some(b) ==> b == regex_matches(pattern@, haystack@),
{
    match regex::Regex::new(pattern) {
        Ok(re) => Some(re.is_match(haystack)),
        Err(_) => None,
    }
}

/// The glob pattern compiled by the regex crate. `MalformedPattern` where the
/// pattern does not parse, `PatternCompilation` where the engine refuses the
/// generated text.
pub fn to_regex(glob: &str) -> (r: Result<regex::Regex, GlobError>)
    ensures
        match glob_regex(glob@) {
            Some(text) => (r is Ok <==> regex_compiles(text)) && (r is Err ==> r->Err_0
                == GlobError::PatternCompilation),
            None => r is Err && r->Err_0 == GlobError::MalformedPattern,
        },
{
    match to_regex_str(glob) {
        Ok(text) => match regex::Regex::new(text.as_str()) {
            Ok(re) => Ok(re),
            Err(_) => Err(GlobError::PatternCompilation),
        },
        Err(e) => Err(e),
    }
}

} // verus!
