use vstd::prelude::*;
use crate::ast::{Node, NodeV, Op, node_view, nodes_view, lemma_nodes_view_elems};
use crate::lexer::{Lexer, TokenKind, token_at, lemma_token_at_advances};

verus! {

/// No grammar alternative matched: the position and the unconsumed remainder.
#[derive(Debug, PartialEq, Eq, Clone)]
pub struct ParseError {
    pub pos: usize,
    pub remainder: String,
}

/// Token kinds that may stand as a bare list item: an identifier or a
/// literal leaf.
pub open spec fn is_item_kind(k: TokenKind) -> bool {
    k == TokenKind::Ident || k == TokenKind::IntLit || k == TokenKind::StrLit
}

/// The continuation of a comma-chain after an already-built left part `acc`:
/// zero or more of comma, space, item — each extending the chain by one
/// binary comma node, left-associated.
pub open spec fn chain_rest_at(s: Seq<char>, i: int, acc: NodeV) -> Option<(NodeV, int)>
    decreases s.len() - i,
{
    match token_at(s, i) {
        Some((t1, j)) => {
            if t1.kind == TokenKind::Comma {
                match token_at(s, j) {
                    Some((t2, k)) => {
                        if t2.kind == TokenKind::Space {
                            match token_at(s, k) {
                                Some((t3, m)) => {
                                    if is_item_kind(t3.kind) && i < m && m <= s.len() {
                                        chain_rest_at(
                                            s,
                                            m,
                                            NodeV::Apply(
                                                Op::Comma,
                                                seq![acc, NodeV::Leaf(t3.text)],
                                            ),
                                        )
                                    } else {
                                        None
                                    }
                                },
                                None => None,
                            }
                        } else {
                            None
                        }
                    },
                    None => None,
                }
            } else {
                Some((acc, i))
            }
        },
        None => Some((acc, i)),
    }
}

/// A comma-chain of one or more items starting at `i`: its AST and its end.
pub open spec fn chain_at(s: Seq<char>, i: int) -> Option<(NodeV, int)> {
    match token_at(s, i) {
        Some((t, j)) => {
            if is_item_kind(t.kind) {
                chain_rest_at(s, j, NodeV::Leaf(t.text))
            } else {
                None
            }
        },
        None => None,
    }
}

/// One select statement starting at `i`:
/// `SELECT` space column-chain space `FROM` space table-chain.
pub open spec fn select_at(s: Seq<char>, i: int) -> Option<(NodeV, int)> {
    match token_at(s, i) {
        Some((t1, j1)) => {
            if t1.kind == TokenKind::Select {
                match token_at(s, j1) {
                    Some((t2, j2)) => {
                        if t2.kind == TokenKind::Space {
                            match chain_at(s, j2) {
                                Some((cols, j3)) => match token_at(s, j3) {
                                    Some((t4, j4)) => {
                                        if t4.kind == TokenKind::Space {
                                            match token_at(s, j4) {
                                                Some((t5, j5)) => {
                                                    if t5.kind == TokenKind::From {
                                                        match token_at(s, j5) {
                                                            Some((t6, j6)) => {
                                                                if t6.kind == TokenKind::Space {
                                                                    match chain_at(s, j6) {
                                                                        Some((tabs, j7)) => Some(
                                                                            (
                                                                                NodeV::Apply(
                                                                                    Op::Select,
                                                                                    seq![
                                                                                        cols,
                                                                                        NodeV::Apply(
                                                                                            Op::From,
                                                                                            seq![tabs],
                                                                                        ),
                                                                                    ],
                                                                                ),
                                                                                j7,
                                                                            ),
                                                                        ),
                                                                        None => None,
                                                                    }
                                                                } else {
                                                                    None
                                                                }
                                                            },
                                                            None => None,
                                                        }
                                                    } else {
                                                        None
                                                    }
                                                },
                                                None => None,
                                            }
                                        } else {
                                            None
                                        }
                                    },
                                    None => None,
                                },
                                None => None,
                            }
                        } else {
                            None
                        }
                    },
                    None => None,
                }
            } else {
                None
            }
        },
        None => None,
    }
}

/// A whole input parsed as one select statement from position `i`: the
/// statement, then an optional semicolon, then the end of the input.
pub open spec fn parse_select_from(s: Seq<char>, i: int) -> Option<NodeV> {
    match select_at(s, i) {
        Some((ast, j)) => {
            if j == s.len() {
                Some(ast)
            } else {
                match token_at(s, j) {
                    Some((t, k)) => {
                        if t.kind == TokenKind::Semicolon && k == s.len() {
                            Some(ast)
                        } else {
                            None
                        }
                    },
                    None => None,
                }
            }
        },
        None => None,
    }
}

/// A whole input parsed as one select statement.
pub open spec fn parse_select(s: Seq<char>) -> Option<NodeV> {
    parse_select_from(s, 0)
}

/// Builds an AST from the token stream of its lexer.
pub struct Parser<'a> {
    pub lexer: Lexer<'a>,
}

impl<'a> Parser<'a> {
    pub open spec fn wf(self) -> bool {
        self.lexer.wf()
    }

    pub fn new(lexer: Lexer<'a>) -> (r: Parser<'a>)
        ensures
            r.lexer == lexer,
    {
        Parser { lexer }
    }

    /// A structured failure at `at`, carrying the unconsumed remainder.
    fn fail(&self, at: usize) -> (e: ParseError)
        requires
            at <= self.lexer.input@.len(),
        ensures
            e.pos == at,
            e.remainder@ == self.lexer.input@.subrange(at as int, self.lexer.input@.len() as int),
    {
        let n = self.lexer.input.unicode_len();
        ParseError { pos: at, remainder: self.lexer.input.substring_char(at, n).to_owned() }
    }

    /// Consumes one token that must be of `kind`.
    fn expect_kind(&mut self, kind: TokenKind) -> (r: Result<(), ParseError>)
        requires
            old(self).wf(),
        ensures
            final(self).wf(),
            final(self).lexer.input == old(self).lexer.input,
            (r matches Ok(())) <==> (token_at(old(self).lexer.input@, old(self).lexer.pos as int)
                matches Some((t, j)) && t.kind == kind),
            r matches Ok(()) ==> token_at(old(self).lexer.input@, old(self).lexer.pos as int)
                matches Some((t, j)) && t.kind == kind && final(self).lexer.pos == j,
            r matches Err(e) ==> e.pos <= old(self).lexer.input@.len() && e.remainder@ == old(
                self,
            ).lexer.input@.subrange(e.pos as int, old(self).lexer.input@.len() as int),
    {
        let at = self.lexer.pos;
        match self.lexer.next_token() {
            Ok(t) => {
                if t.kind == kind {
                    Ok(())
                } else {
                    self.lexer.pos = at;
                    Err(self.fail(at))
                }
            },
            Err(e) => Err(ParseError { pos: e.pos, remainder: e.remainder }),
        }
    }

    /// Consumes one comma-chain of items, left-associating the comma nodes.
    fn parse_chain(&mut self) -> (r: Result<Node, ParseError>)
        requires
            old(self).wf(),
        ensures
            final(self).wf(),
            final(self).lexer.input == old(self).lexer.input,
            (r matches Ok(node)) <==> chain_at(old(self).lexer.input@, old(self).lexer.pos as int)
                is Some,
            r matches Ok(node) ==> chain_at(old(self).lexer.input@, old(self).lexer.pos as int)
                matches Some((nv, j)) && node@ == nv && node.wf() && final(self).lexer.pos == j,
            r matches Err(e) ==> e.pos <= old(self).lexer.input@.len() && e.remainder@ == old(
                self,
            ).lexer.input@.subrange(e.pos as int, old(self).lexer.input@.len() as int),
    {
        let ghost s = self.lexer.input@;
        let ghost start = self.lexer.pos as int;
        let at = self.lexer.pos;
        let first = match self.lexer.next_token() {
            Ok(t) => t,
            Err(e) => {
                return Err(ParseError { pos: e.pos, remainder: e.remainder });
            },
        };
        if !(first.kind == TokenKind::Ident || first.kind == TokenKind::IntLit || first.kind
            == TokenKind::StrLit) {
            self.lexer.pos = at;
            return Err(self.fail(at));
        }
        let mut acc = Node::leaf(first);
        loop
            invariant_except_break
                self.wf(),
                self.lexer.input == old(self).lexer.input,
                self.lexer.input@ == s,
                start == old(self).lexer.pos as int,
                acc.wf(),
                chain_rest_at(s, self.lexer.pos as int, acc@) == chain_at(s, start),
            ensures
                self.wf(),
                self.lexer.input == old(self).lexer.input,
                acc.wf(),
                chain_at(s, start) == Some((acc@, self.lexer.pos as int)),
            decreases s.len() - self.lexer.pos,
        {
            let save = self.lexer.pos;
            let t = match self.lexer.next_token() {
                Ok(t) => t,
                Err(_) => {
                    self.lexer.pos = save;
                    proof {
                        assert(chain_rest_at(s, save as int, acc@) == Some((acc@, save as int)));
                    }
                    break;
                },
            };
            if t.kind != TokenKind::Comma {
                self.lexer.pos = save;
                proof {
                    assert(chain_rest_at(s, save as int, acc@) == Some((acc@, save as int)));
                }
                break;
            }
            proof {
                lemma_token_at_advances(s, save as int);
            }
            let at2 = self.lexer.pos;
            let t2 = match self.lexer.next_token() {
                Ok(t2) => t2,
                Err(e) => {
                    proof {
                        assert(chain_rest_at(s, save as int, acc@) is None);
                        assert(chain_at(s, start) is None);
                    }
                    return Err(ParseError { pos: e.pos, remainder: e.remainder });
                },
            };
            if t2.kind != TokenKind::Space {
                self.lexer.pos = at2;
                proof {
                    assert(chain_rest_at(s, save as int, acc@) is None);
                    assert(chain_at(s, start) is None);
                }
                return Err(self.fail(at2));
            }
            proof {
                lemma_token_at_advances(s, at2 as int);
            }
            let at3 = self.lexer.pos;
            let t3 = match self.lexer.next_token() {
                Ok(t3) => t3,
                Err(e) => {
                    proof {
                        assert(chain_rest_at(s, save as int, acc@) is None);
                        assert(chain_at(s, start) is None);
                    }
                    return Err(ParseError { pos: e.pos, remainder: e.remainder });
                },
            };
            if !(t3.kind == TokenKind::Ident || t3.kind == TokenKind::IntLit || t3.kind
                == TokenKind::StrLit) {
                self.lexer.pos = at3;
                proof {
                    assert(chain_rest_at(s, save as int, acc@) is None);
                }
                return Err(self.fail(at3));
            }
            proof {
                lemma_token_at_advances(s, at3 as int);
            }
            let ghost old_acc_v = acc@;
            let leaf = Node::leaf(t3);
            let mut children: Vec<Node> = Vec::new();
            children.push(acc);
            children.push(leaf);
            proof {
                lemma_nodes_view_elems(children@);
                assert(children@.len() == 2);
                assert(node_view(children@[0]) == old_acc_v);
                assert(node_view(children@[1]) == leaf@);
                assert(nodes_view(children@)[0] == old_acc_v);
                assert(nodes_view(children@)[1] == leaf@);
                assert(nodes_view(children@) =~= seq![old_acc_v, leaf@]);
            }
            acc = Node::internal(Op::Comma, children);
            proof {
                assert(acc@ == NodeV::Apply(Op::Comma, seq![old_acc_v, NodeV::Leaf(t3@.text)]));
                assert(chain_rest_at(s, save as int, old_acc_v) == chain_rest_at(
                    s,
                    self.lexer.pos as int,
                    acc@,
                ));
            }
        }
        Ok(acc)
    }

    /// Parses the whole input as one select statement, building its AST: a
    /// `Select` node over the column chain and a `From` node over the table
    /// chain. Fails with a structured error when the input does not match.
    pub fn parse(&mut self) -> (r: Result<Node, ParseError>)
        requires
            old(self).wf(),
        ensures
            final(self).wf(),
            final(self).lexer.input == old(self).lexer.input,
            (r matches Ok(node)) <==> parse_select_from(
                old(self).lexer.input@,
                old(self).lexer.pos as int,
            ) is Some,
            r matches Ok(node) ==> parse_select_from(
                old(self).lexer.input@,
                old(self).lexer.pos as int,
            ) == Some(node@) && node.wf(),
            r matches Err(e) ==> e.pos <= old(self).lexer.input@.len() && e.remainder@ == old(
                self,
            ).lexer.input@.subrange(e.pos as int, old(self).lexer.input@.len() as int),
    {
        let ghost s = self.lexer.input@;
        match self.expect_kind(TokenKind::Select) {
            Ok(()) => {},
            Err(e) => {
                return Err(e);
            },
        }
        match self.expect_kind(TokenKind::Space) {
            Ok(()) => {},
            Err(e) => {
                return Err(e);
            },
        }
        let cols = match self.parse_chain() {
            Ok(c) => c,
            Err(e) => {
                return Err(e);
            },
        };
        match self.expect_kind(TokenKind::Space) {
            Ok(()) => {},
            Err(e) => {
                return Err(e);
            },
        }
        match self.expect_kind(TokenKind::From) {
            Ok(()) => {},
            Err(e) => {
                return Err(e);
            },
        }
        match self.expect_kind(TokenKind::Space) {
            Ok(()) => {},
            Err(e) => {
                return Err(e);
            },
        }
        let tabs = match self.parse_chain() {
            Ok(t) => t,
            Err(e) => {
                return Err(e);
            },
        };
        let n = self.lexer.input.unicode_len();
        if self.lexer.pos < n {
            let at = self.lexer.pos;
            match self.expect_kind(TokenKind::Semicolon) {
                Ok(()) => {},
                Err(e) => {
                    return Err(e);
                },
            }
            if self.lexer.pos < n {
                let at2 = self.lexer.pos;
                return Err(self.fail(at2));
            }
        }
        let ghost cols_v = cols@;
        let ghost tabs_v = tabs@;
        let mut from_children: Vec<Node> = Vec::new();
        from_children.push(tabs);
        proof {
            lemma_nodes_view_elems(from_children@);
            assert(nodes_view(from_children@) =~= seq![tabs_v]);
        }
        let from_node = Node::internal(Op::From, from_children);
        let mut select_children: Vec<Node> = Vec::new();
        select_children.push(cols);
        select_children.push(from_node);
        proof {
            lemma_nodes_view_elems(select_children@);
            assert(select_children@[0] == cols);
            assert(select_children@[1] == from_node);
            assert(nodes_view(select_children@)[0] == cols_v);
            assert(nodes_view(select_children@)[1] == NodeV::Apply(Op::From, seq![tabs_v]));
            assert(nodes_view(select_children@) =~= seq![cols_v, NodeV::Apply(Op::From, seq![tabs_v])]);
        }
        let ast = Node::internal(Op::Select, select_children);
        Ok(ast)
    }
}

/// Every comma-chain the parser builds is well-formed for flattening: it
/// starts from a leaf and each step wraps it in a binary comma node.
pub proof fn lemma_chain_rest_chain_ok(s: Seq<char>, i: int, acc: NodeV)
    requires
        crate::analyzer::chain_ok(acc),
        chain_rest_at(s, i, acc) is Some,
    ensures
        chain_rest_at(s, i, acc) matches Some((nv, j)) ==> crate::analyzer::chain_ok(nv),
    decreases s.len() - i,
{
    match token_at(s, i) {
        Some((t1, j)) => {
            if t1.kind == TokenKind::Comma {
                match token_at(s, j) {
                    Some((t2, k)) => {
                        if t2.kind == TokenKind::Space {
                            match token_at(s, k) {
                                Some((t3, m)) => {
                                    if is_item_kind(t3.kind) && i < m && m <= s.len() {
                                        let items = seq![acc, NodeV::Leaf(t3.text)];
                                        let step = NodeV::Apply(Op::Comma, items);
                                        assert(items[0] == acc);
                                        assert(items[1] == NodeV::Leaf(t3.text));
                                        assert(crate::analyzer::chain_ok(items[1]));
                                        assert(crate::analyzer::chain_ok(step));
                                        lemma_chain_rest_chain_ok(s, m, step);
                                    }
                                },
                                None => {},
                            }
                        }
                    },
                    None => {},
                }
            }
        },
        None => {},
    }
}

/// Every AST the parser yields is one the analyzer accepts: a `Select` root
/// over a column chain and a `From` node over a table chain.
pub proof fn lemma_parsed_select_analyzable(s: Seq<char>, i: int)
    requires
        parse_select_from(s, i) is Some,
    ensures
        parse_select_from(s, i) matches Some(ast) ==> crate::analyzer::analyze_ok(ast),
{
    let (ast, j7) = select_at(s, i).unwrap();
    if let Some((t1, j1)) = token_at(s, i) {
        if let Some((t2, j2)) = token_at(s, j1) {
            let (cols, j3) = chain_at(s, j2).unwrap();
            if let Some((t4, j4)) = token_at(s, j3) {
                if let Some((t5, j5)) = token_at(s, j4) {
                    if let Some((t6, j6)) = token_at(s, j5) {
                        let (tabs, _) = chain_at(s, j6).unwrap();
                        if let Some((tc, jc)) = token_at(s, j2) {
                            if is_item_kind(tc.kind) {
                                lemma_chain_rest_chain_ok(s, jc, NodeV::Leaf(tc.text));
                            }
                        }
                        if let Some((tt, jt)) = token_at(s, j6) {
                            if is_item_kind(tt.kind) {
                                lemma_chain_rest_chain_ok(s, jt, NodeV::Leaf(tt.text));
                            }
                        }
                        let from_v = NodeV::Apply(Op::From, seq![tabs]);
                        assert(ast == NodeV::Apply(Op::Select, seq![cols, from_v]));
                        assert(crate::analyzer::chain_ok(cols));
                        assert(crate::analyzer::chain_ok(tabs));
                        assert(crate::analyzer::walk_ok(from_v));
                        assert(seq![cols, from_v][1] == from_v);
                        assert(crate::analyzer::walk_ok(ast));
                    }
                }
            }
        }
    }
}

} // verus!
