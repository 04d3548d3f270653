use vstd::prelude::*;
use crate::scan::{
    is_space_char, is_digit_char, is_alpha_char, space_pred, digit_pred, alpha_pred, alnum_pred,
    run_end, lemma_run_end, scan_spaces, scan_digits, scan_alpha, scan_alnum, str_eq,
};

verus! {

#[derive(Debug, PartialEq, Eq, Structural, Clone, Copy)]
pub enum TokenKind {
    Select,
    From,
    Insert,
    Into,
    Values,
    Comma,
    LParen,
    RParen,
    Semicolon,
    Space,
    Ident,
    IntLit,
    StrLit,
}

/// A classified lexical unit: its kind and its text. For a quoted string
/// literal the text is the content between the quotes.
#[derive(Debug, Clone)]
pub struct Token {
    pub kind: TokenKind,
    pub text: String,
}

/// Mathematical value of a token.
pub struct TokenV {
    pub kind: TokenKind,
    pub text: Seq<char>,
}

impl View for Token {
    type V = TokenV;

    open spec fn view(&self) -> TokenV {
        TokenV { kind: self.kind, text: self.text@ }
    }
}

impl Token {
    /// The name a leaf token contributes to a flattened list.
    pub fn get_first_name_as_string(&self) -> (r: String)
        ensures
            r@ == self.text@,
    {
        self.text.clone()
    }
}

/// No token rule matched: the position and the unconsumed remainder.
#[derive(Debug, PartialEq, Eq, Clone)]
pub struct LexError {
    pub pos: usize,
    pub remainder: String,
}

pub open spec fn kw_select() -> Seq<char> {
    seq!['S', 'E', 'L', 'E', 'C', 'T']
}

pub open spec fn kw_from() -> Seq<char> {
    seq!['F', 'R', 'O', 'M']
}

pub open spec fn kw_insert() -> Seq<char> {
    seq!['I', 'N', 'S', 'E', 'R', 'T']
}

pub open spec fn kw_into() -> Seq<char> {
    seq!['I', 'N', 'T', 'O']
}

pub open spec fn kw_values() -> Seq<char> {
    seq!['V', 'A', 'L', 'U', 'E', 'S']
}

/// Classification of an alphanumeric run: one of the fixed keywords, spelled
/// exactly, or an identifier.
pub open spec fn keyword_kind(t: Seq<char>) -> TokenKind {
    if t == kw_select() {
        TokenKind::Select
    } else if t == kw_from() {
        TokenKind::From
    } else if t == kw_insert() {
        TokenKind::Insert
    } else if t == kw_into() {
        TokenKind::Into
    } else if t == kw_values() {
        TokenKind::Values
    } else {
        TokenKind::Ident
    }
}

/// The token that starts at position `i` of `s`, with its end position:
/// a run of spaces; one of `,`, `(`, `)`, `;`; a run of digits; a run of
/// alphanumerics opened by a letter, classified by `keyword_kind`; or a
/// single-quoted run of letters. `None` when no rule matches.
pub open spec fn token_at(s: Seq<char>, i: int) -> Option<(TokenV, int)> {
    if !(0 <= i < s.len()) {
        None
    } else {
        let c = s[i];
        if is_space_char(c) {
            let j = run_end(s, i, space_pred());
            Some((TokenV { kind: TokenKind::Space, text: s.subrange(i, j) }, j))
        } else if c == ',' {
            Some((TokenV { kind: TokenKind::Comma, text: seq![','] }, i + 1))
        } else if c == '(' {
            Some((TokenV { kind: TokenKind::LParen, text: seq!['('] }, i + 1))
        } else if c == ')' {
            Some((TokenV { kind: TokenKind::RParen, text: seq![')'] }, i + 1))
        } else if c == ';' {
            Some((TokenV { kind: TokenKind::Semicolon, text: seq![';'] }, i + 1))
        } else if is_digit_char(c) {
            let j = run_end(s, i, digit_pred());
            Some((TokenV { kind: TokenKind::IntLit, text: s.subrange(i, j) }, j))
        } else if is_alpha_char(c) {
            let j = run_end(s, i, alnum_pred());
            Some((TokenV { kind: keyword_kind(s.subrange(i, j)), text: s.subrange(i, j) }, j))
        } else if c == '\'' {
            let j = run_end(s, i + 1, alpha_pred());
            if i + 1 < j && j < s.len() && s[j] == '\'' {
                Some((TokenV { kind: TokenKind::StrLit, text: s.subrange(i + 1, j) }, j + 1))
            } else {
                None
            }
        } else {
            None
        }
    }
}

/// Every token consumes at least one character and ends within the input.
pub proof fn lemma_token_at_advances(s: Seq<char>, i: int)
    requires
        token_at(s, i) matches Some((t, j)),
    ensures
        token_at(s, i) matches Some((t, j)) ==> i < j <= s.len(),
{
    if 0 <= i < s.len() {
        let c = s[i];
        lemma_run_end(s, i, space_pred());
        lemma_run_end(s, i, digit_pred());
        lemma_run_end(s, i, alnum_pred());
        if c == '\'' && i + 1 <= s.len() {
            lemma_run_end(s, i + 1, alpha_pred());
        }
        if is_space_char(c) {
            assert(space_pred()(s[i]));
        } else if is_digit_char(c) {
            assert(digit_pred()(s[i]));
        } else if is_alpha_char(c) {
            assert(alnum_pred()(s[i]));
        }
    }
}

/// The spellings of the keyword tokens.
pub proof fn lemma_kw_literals()
    ensures
        ("SELECT")@ == kw_select(),
        ("FROM")@ == kw_from(),
        ("INSERT")@ == kw_insert(),
        ("INTO")@ == kw_into(),
        ("VALUES")@ == kw_values(),
{
    reveal_strlit("SELECT");
    reveal_strlit("FROM");
    reveal_strlit("INSERT");
    reveal_strlit("INTO");
    reveal_strlit("VALUES");
    assert(("SELECT")@ =~= kw_select());
    assert(("FROM")@ =~= kw_from());
    assert(("INSERT")@ =~= kw_insert());
    assert(("INTO")@ =~= kw_into());
    assert(("VALUES")@ =~= kw_values());
}

/// Produces tokens on demand from an internal cursor over the query text.
pub struct Lexer<'a> {
    pub input: &'a str,
    pub pos: usize,
}

impl<'a> Lexer<'a> {
    pub open spec fn wf(self) -> bool {
        self.pos <= self.input@.len()
    }

    pub fn new(input: &'a str) -> (r: Lexer<'a>)
        ensures
            r.input@ == input@,
            r.pos == 0,
            r.wf(),
    {
        Lexer { input, pos: 0 }
    }

    /// The next token at the cursor, advancing past it; or a structured
    /// error carrying the unconsumed remainder, leaving the cursor in place.
    pub fn next_token(&mut self) -> (r: Result<Token, LexError>)
        requires
            old(self).wf(),
        ensures
            final(self).input == old(self).input,
            final(self).wf(),
            match r {
                Ok(t) => token_at(old(self).input@, old(self).pos as int) == Some(
                    (t@, final(self).pos as int),
                ),
                Err(e) => {
                    &&& token_at(old(self).input@, old(self).pos as int) is None
                    &&& final(self).pos == old(self).pos
                    &&& e.pos == old(self).pos
                    &&& e.remainder@ == old(self).input@.subrange(
                        old(self).pos as int,
                        old(self).input@.len() as int,
                    )
                },
            },
    {
        let s = self.input;
        let pos = self.pos;
        let n = s.unicode_len();
        if pos >= n {
            return Err(
                LexError { pos, remainder: s.substring_char(pos, n).to_owned() },
            );
        }
        let c = s.get_char(pos);
        if c == ' ' || c == '\t' {
            let j = scan_spaces(s, pos);
            proof {
                assert(space_pred()(s@[pos as int]));
                lemma_run_end(s@, pos as int, space_pred());
            }
            let text = s.substring_char(pos, j).to_owned();
            self.pos = j;
            Ok(Token { kind: TokenKind::Space, text })
        } else if c == ',' {
            let text = s.substring_char(pos, pos + 1).to_owned();
            proof {
                assert(text@ =~= seq![',']);
            }
            self.pos = pos + 1;
            Ok(Token { kind: TokenKind::Comma, text })
        } else if c == '(' {
            let text = s.substring_char(pos, pos + 1).to_owned();
            proof {
                assert(text@ =~= seq!['(']);
            }
            self.pos = pos + 1;
            Ok(Token { kind: TokenKind::LParen, text })
        } else if c == ')' {
            let text = s.substring_char(pos, pos + 1).to_owned();
            proof {
                assert(text@ =~= seq![')']);
            }
            self.pos = pos + 1;
            Ok(Token { kind: TokenKind::RParen, text })
        } else if c == ';' {
            let text = s.substring_char(pos, pos + 1).to_owned();
            proof {
                assert(text@ =~= seq![';']);
            }
            self.pos = pos + 1;
            Ok(Token { kind: TokenKind::Semicolon, text })
        } else if '0' <= c && c <= '9' {
            let j = scan_digits(s, pos);
            proof {
                assert(digit_pred()(s@[pos as int]));
                lemma_run_end(s@, pos as int, digit_pred());
            }
            let text = s.substring_char(pos, j).to_owned();
            self.pos = j;
            Ok(Token { kind: TokenKind::IntLit, text })
        } else if ('a' <= c && c <= 'z') || ('A' <= c && c <= 'Z') {
            let j = scan_alnum(s, pos);
            proof {
                assert(alnum_pred()(s@[pos as int]));
                lemma_run_end(s@, pos as int, alnum_pred());
                lemma_kw_literals();
            }
            let run = s.substring_char(pos, j);
            let kind = if str_eq(run, "SELECT") {
                TokenKind::Select
            } else if str_eq(run, "FROM") {
                TokenKind::From
            } else if str_eq(run, "INSERT") {
                TokenKind::Insert
            } else if str_eq(run, "INTO") {
                TokenKind::Into
            } else if str_eq(run, "VALUES") {
                TokenKind::Values
            } else {
                TokenKind::Ident
            };
            let text = run.to_owned();
            self.pos = j;
            Ok(Token { kind, text })
        } else if c == '\'' {
            let j = scan_alpha(s, pos + 1);
            proof {
                lemma_run_end(s@, pos as int + 1, alpha_pred());
            }
            if pos + 1 < j && j < n && s.get_char(j) == '\'' {
                let text = s.substring_char(pos + 1, j).to_owned();
                self.pos = j + 1;
                Ok(Token { kind: TokenKind::StrLit, text })
            } else {
                Err(LexError { pos, remainder: s.substring_char(pos, n).to_owned() })
            }
        } else {
            Err(LexError { pos, remainder: s.substring_char(pos, n).to_owned() })
        }
    }
}

} // verus!
