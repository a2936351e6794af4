//! Parsing: the flat token stream becomes a loop-nested tree of operation
//! nodes. A parsed node always flattens back to exactly the tokens it
//! consumed; a malformed stream (a stray closing bracket, an unterminated
//! loop, a halt marker inside a loop) yields no node instead of a wrong one.

use vstd::prelude::*;

use crate::common::{Node, Token};

verus! {

/// The tokens a node stands for: leaves map back one to one, a loop is its
/// children between a bracket pair, and the halt node is the end marker.
pub open spec fn flatten_node(n: Node) -> Seq<Token>
    decreases n,
    via flatten_node_decreases
{
    match n {
        Node::Loop(body) => seq![Token::LeftLoop] + flatten_nodes(body@) + seq![Token::RightLoop],
        Node::MoveRight => seq![Token::MoveRight],
        Node::MoveLeft => seq![Token::MoveLeft],
        Node::Increment => seq![Token::Increment],
        Node::Decrement => seq![Token::Decrement],
        Node::Output => seq![Token::Output],
        Node::Input => seq![Token::Input],
        Node::Halt => seq![Token::EOF],
    }
}

/// The tokens a sequence of nodes stands for.
pub open spec fn flatten_nodes(s: Seq<Node>) -> Seq<Token>
    decreases s,
    via flatten_nodes_decreases
{
    if s.len() == 0 {
        Seq::empty()
    } else {
        flatten_node(s[0]) + flatten_nodes(s.skip(1))
    }
}

#[via_fn]
proof fn flatten_node_decreases(n: Node) {
    if n is Loop {
        assert(decreases_to!(n => n->Loop_0));
        assert(decreases_to!(n->Loop_0 => n->Loop_0@));
    }
}

#[via_fn]
proof fn flatten_nodes_decreases(s: Seq<Node>) {
    if s.len() > 0 {
        assert(decreases_to!(s => s[0]));
        assert(s.skip(1) =~= s.subrange(1, s.len() as int));
        assert(decreases_to!(s => s.subrange(1, s.len() as int)));
    }
}

/// Parse one node at `pos`: a leaf, the halt marker, or a whole loop. No
/// node and a cursor one past a closing bracket closes the enclosing loop;
/// no node otherwise means the stream is malformed at this point.
fn parse_node(tokens: &Vec<Token>, pos: usize) -> (r: (Option<Node>, usize))
    requires
        pos <= tokens@.len(),
    ensures
        pos <= r.1 <= tokens@.len(),
        r.0 matches Some(n) ==> r.1 > pos && flatten_node(n) == tokens@.subrange(
            pos as int,
            r.1 as int,
        ),
        r.0 is None ==> pos == tokens@.len() || tokens@[pos as int] is RightLoop
            || tokens@[pos as int] is LeftLoop,
    decreases tokens@.len() - pos, 0int,
{
    if pos >= tokens.len() {
        return (None, pos);
    }
    let t = tokens[pos];
    match t {
        Token::MoveRight => {
            proof {
                assert(seq![Token::MoveRight] =~= tokens@.subrange(pos as int, pos + 1));
            }
            (Some(Node::MoveRight), pos + 1)
        },
        Token::MoveLeft => {
            proof {
                assert(seq![Token::MoveLeft] =~= tokens@.subrange(pos as int, pos + 1));
            }
            (Some(Node::MoveLeft), pos + 1)
        },
        Token::Increment => {
            proof {
                assert(seq![Token::Increment] =~= tokens@.subrange(pos as int, pos + 1));
            }
            (Some(Node::Increment), pos + 1)
        },
        Token::Decrement => {
            proof {
                assert(seq![Token::Decrement] =~= tokens@.subrange(pos as int, pos + 1));
            }
            (Some(Node::Decrement), pos + 1)
        },
        Token::Output => {
            proof {
                assert(seq![Token::Output] =~= tokens@.subrange(pos as int, pos + 1));
            }
            (Some(Node::Output), pos + 1)
        },
        Token::Input => {
            proof {
                assert(seq![Token::Input] =~= tokens@.subrange(pos as int, pos + 1));
            }
            (Some(Node::Input), pos + 1)
        },
        Token::EOF => {
            proof {
                assert(seq![Token::EOF] =~= tokens@.subrange(pos as int, pos + 1));
            }
            (Some(Node::Halt), pos + 1)
        },
        Token::RightLoop => (None, pos + 1),
        Token::LeftLoop => {
            let (body, p2) = parse_body(tokens, pos + 1);
            match body {
                Some(v) => {
                    proof {
                        assert(flatten_node(Node::Loop(v)) =~= tokens@.subrange(
                            pos as int,
                            p2 as int,
                        )) by {
                            assert(flatten_nodes(v@) + seq![Token::RightLoop] == tokens@.subrange(
                                pos + 1,
                                p2 as int,
                            ));
                            assert(seq![Token::LeftLoop] + (flatten_nodes(v@) + seq![
                                Token::RightLoop,
                            ]) =~= flatten_node(Node::Loop(v)));
                            assert(seq![Token::LeftLoop] =~= tokens@.subrange(pos as int, pos + 1));
                            assert(tokens@.subrange(pos as int, pos + 1) + tokens@.subrange(
                                pos + 1,
                                p2 as int,
                            ) =~= tokens@.subrange(pos as int, p2 as int));
                        }
                    }
                    (Some(Node::Loop(v)), p2)
                },
                None => (None, p2),
            }
        },
    }
}

/// Parse the children of a loop up to and including its closing bracket.
/// `None` when the stream runs out, hits the halt marker, or a child is
/// malformed.
fn parse_body(tokens: &Vec<Token>, pos: usize) -> (r: (Option<Vec<Node>>, usize))
    requires
        pos <= tokens@.len(),
    ensures
        pos <= r.1 <= tokens@.len(),
        r.0 matches Some(v) ==> r.1 > pos && flatten_nodes(v@) + seq![Token::RightLoop]
            == tokens@.subrange(pos as int, r.1 as int),
    decreases tokens@.len() - pos, 1int,
{
    if pos >= tokens.len() {
        return (None, pos);
    }
    let t = tokens[pos];
    match t {
        Token::RightLoop => {
            let v: Vec<Node> = Vec::new();
            proof {
                assert(flatten_nodes(v@) + seq![Token::RightLoop] =~= tokens@.subrange(
                    pos as int,
                    pos + 1,
                ));
            }
            (Some(v), pos + 1)
        },
        Token::EOF => (None, pos),
        _ => {
            let (first, p2) = parse_node(tokens, pos);
            match first {
                Some(node) => {
                    let (rest, p3) = parse_body(tokens, p2);
                    match rest {
                        Some(mut v) => {
                            let ghost v0 = v@;
                            v.insert(0, node);
                            proof {
                                assert(v@ =~= seq![node] + v0);
                                assert(flatten_nodes(v@) == flatten_node(node) + flatten_nodes(
                                    v0,
                                )) by {
                                    assert(v@[0] == node);
                                    assert(v@.skip(1) =~= v0);
                                }
                                assert(flatten_nodes(v@) + seq![Token::RightLoop] =~= tokens@
                                    .subrange(pos as int, p3 as int)) by {
                                    assert(tokens@.subrange(pos as int, p2 as int) + tokens@
                                        .subrange(p2 as int, p3 as int) =~= tokens@.subrange(
                                        pos as int,
                                        p3 as int,
                                    ));
                                }
                            }
                            (Some(v), p3)
                        },
                        None => (None, p3),
                    }
                },
                None => (None, p2),
            }
        },
    }
}

/// Turns a token stream into a stream of operation nodes.
pub struct Parser {
    tokens: Vec<Token>,
    pos: usize,
    eof: bool,
}

impl Parser {
    /// The tokens being parsed.
    pub closed spec fn toks(&self) -> Seq<Token> {
        self.tokens@
    }

    /// How many tokens have been consumed.
    pub closed spec fn cursor(&self) -> int {
        self.pos as int
    }

    /// A parser over the given tokens.
    pub fn new(tokens: Vec<Token>) -> (r: Parser)
        ensures
            r.toks() == tokens@,
            r.cursor() == 0,
    {
        Parser { tokens, pos: 0, eof: false }
    }

    /// The next node of the stream, if one can be parsed here. A returned
    /// node flattens back to exactly the tokens consumed for it.
    pub fn get_node(&mut self) -> (r: Option<Node>)
        requires
            old(self).cursor() <= old(self).toks().len(),
        ensures
            final(self).toks() == old(self).toks(),
            old(self).cursor() <= final(self).cursor() <= final(self).toks().len(),
            r matches Some(n) ==> final(self).cursor() > old(self).cursor() && flatten_node(n)
                == old(self).toks().subrange(old(self).cursor(), final(self).cursor()),
            r is None ==> old(self).cursor() == old(self).toks().len()
                || old(self).toks()[old(self).cursor()] is RightLoop
                || old(self).toks()[old(self).cursor()] is LeftLoop,
    {
        let (node, p2) = parse_node(&self.tokens, self.pos);
        self.pos = p2;
        if let Some(n) = &node {
            if matches!(n, Node::Halt) {
                self.eof = true;
            }
        }
        node
    }

    /// The next node; the stream ends after the halt node.
    pub fn next(&mut self) -> (r: Option<Node>)
        requires
            old(self).cursor() <= old(self).toks().len(),
        ensures
            final(self).toks() == old(self).toks(),
            old(self).cursor() <= final(self).cursor() <= final(self).toks().len(),
            r matches Some(n) ==> final(self).cursor() > old(self).cursor() && flatten_node(n)
                == old(self).toks().subrange(old(self).cursor(), final(self).cursor()),
            r is None ==> old(self).cursor() == old(self).toks().len()
                || old(self).toks()[old(self).cursor()] is RightLoop
                || old(self).toks()[old(self).cursor()] is LeftLoop,
    {
        self.get_node()
    }
}

} // verus!
