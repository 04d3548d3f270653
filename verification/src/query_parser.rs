use vstd::prelude::*;
use crate::scan::{
    is_digit_char, space_pred, digit_pred, alpha_pred, alnum_pred, run_end, lemma_run_end,
    tag_matches, match_tag, scan_spaces, scan_digits, scan_alpha, scan_alnum, digits_val,
    lemma_digits_val_step, lemma_digits_val_prefix,
};
use crate::parse_tree::{
    Queries, Query, SelectQuery, InsertQuery, SelectStatement, FromStatement, TableStatement,
    JoinStatement, ColumnStatement, ColumnIdentifier, Literal, Function, ColumnIdentifierV,
    LiteralV, FunctionV, ColumnStatementV, TableStatementV, column_identifier_view, literal_view,
    literals_view, strings_view, table_statement_view, table_statements_view,
    column_statement_view, column_statements_view, lemma_column_statements_view_elems,
};
use crate::parser::ParseError;

verus! {

pub open spec fn t_select() -> Seq<char> {
    seq!['s', 'e', 'l', 'e', 'c', 't']
}

pub open spec fn t_from() -> Seq<char> {
    seq!['f', 'r', 'o', 'm']
}

pub open spec fn t_insert() -> Seq<char> {
    seq!['i', 'n', 's', 'e', 'r', 't']
}

pub open spec fn t_into() -> Seq<char> {
    seq!['i', 'n', 't', 'o']
}

pub open spec fn t_values() -> Seq<char> {
    seq!['v', 'a', 'l', 'u', 'e', 's']
}

pub open spec fn t_sep() -> Seq<char> {
    seq![',', ' ']
}

/// The spellings of the statement keywords and the list separator.
pub proof fn lemma_tag_literals()
    ensures
        ("select")@ == t_select(),
        ("from")@ == t_from(),
        ("insert")@ == t_insert(),
        ("into")@ == t_into(),
        ("values")@ == t_values(),
        (", ")@ == t_sep(),
{
    reveal_strlit("select");
    reveal_strlit("from");
    reveal_strlit("insert");
    reveal_strlit("into");
    reveal_strlit("values");
    reveal_strlit(", ");
    assert(("select")@ =~= t_select());
    assert(("from")@ =~= t_from());
    assert(("insert")@ =~= t_insert());
    assert(("into")@ =~= t_into());
    assert(("values")@ =~= t_values());
    assert((", ")@ =~= t_sep());
}

/// A fixed word at `i`: the position just past it.
pub open spec fn word_at(s: Seq<char>, i: int, w: Seq<char>) -> Option<int> {
    if 0 <= i && tag_matches(s, i, w) {
        Some(i + w.len())
    } else {
        None
    }
}

/// A fixed single character at `i`.
pub open spec fn char_at(s: Seq<char>, i: int, c: char) -> Option<int> {
    if 0 <= i < s.len() && s[i] == c {
        Some(i + 1)
    } else {
        None
    }
}

/// One or more spaces at `i`: the position just past them.
pub open spec fn space1_at(s: Seq<char>, i: int) -> Option<int> {
    if 0 <= i <= s.len() {
        let j = run_end(s, i, space_pred());
        if j > i {
            Some(j)
        } else {
            None
        }
    } else {
        None
    }
}

/// One or more ASCII letters at `i`.
pub open spec fn alpha1_at(s: Seq<char>, i: int) -> Option<int> {
    if 0 <= i <= s.len() {
        let j = run_end(s, i, alpha_pred());
        if j > i {
            Some(j)
        } else {
            None
        }
    } else {
        None
    }
}

/// One or more ASCII letters or digits at `i`.
pub open spec fn alnum1_at(s: Seq<char>, i: int) -> Option<int> {
    if 0 <= i <= s.len() {
        let j = run_end(s, i, alnum_pred());
        if j > i {
            Some(j)
        } else {
            None
        }
    } else {
        None
    }
}

/// A single-quoted run of letters at `i`: its content and its end.
pub open spec fn quoted_at(s: Seq<char>, i: int) -> Option<(Seq<char>, int)> {
    match char_at(s, i, '\'') {
        Some(j) => match alpha1_at(s, j) {
            Some(k) => match char_at(s, k, '\'') {
                Some(m) => Some((s.subrange(j, k), m)),
                None => None,
            },
            None => None,
        },
        None => None,
    }
}

pub open spec fn sign_end(s: Seq<char>, i: int) -> int {
    if 0 <= i < s.len() && (s[i] == '+' || s[i] == '-') {
        i + 1
    } else {
        i
    }
}

/// A signed decimal integer at `i`: its value and its end. Fails when there
/// is no digit or the value does not fit an `i32`.
pub open spec fn i32_at(s: Seq<char>, i: int) -> Option<(i32, int)> {
    if !(0 <= i <= s.len()) {
        None
    } else {
        let ds = sign_end(s, i);
        let j = run_end(s, ds, digit_pred());
        if j == ds {
            None
        } else {
            let mag = digits_val(s.subrange(ds, j));
            let v: int = if i < ds && s[i] == '-' {
                -mag
            } else {
                mag
            };
            if i32::MIN <= v <= i32::MAX {
                Some((v as i32, j))
            } else {
                None
            }
        }
    }
}

fn x_word(s: &str, pos: usize, w: &str) -> (r: Option<usize>)
    requires
        pos <= s@.len(),
    ensures
        match r {
            Some(j) => word_at(s@, pos as int, w@) == Some(j as int) && pos <= j <= s@.len(),
            None => word_at(s@, pos as int, w@) is None,
        },
{
    let n = s.unicode_len();
    let wl = w.unicode_len();
    if match_tag(s, pos, w) {
        proof {
            assert(pos + wl <= n);
        }
        Some(pos + wl)
    } else {
        None
    }
}

fn x_char(s: &str, pos: usize, c: char) -> (r: Option<usize>)
    requires
        pos <= s@.len(),
    ensures
        match r {
            Some(j) => char_at(s@, pos as int, c) == Some(j as int) && pos < j <= s@.len(),
            None => char_at(s@, pos as int, c) is None,
        },
{
    let n = s.unicode_len();
    if pos < n && s.get_char(pos) == c {
        Some(pos + 1)
    } else {
        None
    }
}

fn x_space1(s: &str, pos: usize) -> (r: Option<usize>)
    requires
        pos <= s@.len(),
    ensures
        match r {
            Some(j) => space1_at(s@, pos as int) == Some(j as int) && pos < j <= s@.len(),
            None => space1_at(s@, pos as int) is None,
        },
{
    let j = scan_spaces(s, pos);
    if j > pos {
        Some(j)
    } else {
        None
    }
}

fn x_alpha1(s: &str, pos: usize) -> (r: Option<usize>)
    requires
        pos <= s@.len(),
    ensures
        match r {
            Some(j) => alpha1_at(s@, pos as int) == Some(j as int) && pos < j <= s@.len(),
            None => alpha1_at(s@, pos as int) is None,
        },
{
    let j = scan_alpha(s, pos);
    if j > pos {
        Some(j)
    } else {
        None
    }
}

fn x_alnum1(s: &str, pos: usize) -> (r: Option<usize>)
    requires
        pos <= s@.len(),
    ensures
        match r {
            Some(j) => alnum1_at(s@, pos as int) == Some(j as int) && pos < j <= s@.len(),
            None => alnum1_at(s@, pos as int) is None,
        },
{
    let j = scan_alnum(s, pos);
    if j > pos {
        Some(j)
    } else {
        None
    }
}

fn x_quoted(s: &str, pos: usize) -> (r: Option<(String, usize)>)
    requires
        pos <= s@.len(),
    ensures
        match r {
            Some((t, j)) => quoted_at(s@, pos as int) == Some((t@, j as int)) && pos < j
                <= s@.len(),
            None => quoted_at(s@, pos as int) is None,
        },
{
    let j = match x_char(s, pos, '\'') {
        Some(j) => j,
        None => {
            return None;
        },
    };
    let k = match x_alpha1(s, j) {
        Some(k) => k,
        None => {
            return None;
        },
    };
    let m = match x_char(s, k, '\'') {
        Some(m) => m,
        None => {
            return None;
        },
    };
    let text = s.substring_char(j, k).to_owned();
    Some((text, m))
}

fn x_i32(s: &str, pos: usize) -> (r: Option<(i32, usize)>)
    requires
        pos <= s@.len(),
    ensures
        match r {
            Some((v, j)) => i32_at(s@, pos as int) == Some((v, j as int)) && pos < j <= s@.len(),
            None => i32_at(s@, pos as int) is None,
        },
{
    let n = s.unicode_len();
    let mut neg = false;
    let mut ds = pos;
    if pos < n {
        let c = s.get_char(pos);
        if c == '-' {
            neg = true;
            ds = pos + 1;
        } else if c == '+' {
            ds = pos + 1;
        }
    }
    proof {
        assert(ds == sign_end(s@, pos as int));
    }
    let j = scan_digits(s, ds);
    proof {
        lemma_run_end(s@, ds as int, digit_pred());
    }
    if j == ds {
        return None;
    }
    let ghost digits = s@.subrange(ds as int, j as int);
    let mut m = ds;
    let mut mag: u64 = 0;
    loop
        invariant_except_break
            pos <= ds <= m <= j <= n,
            n == s@.len(),
            ds == sign_end(s@, pos as int),
            j == run_end(s@, ds as int, digit_pred()),
            ds < j,
            forall|k: int| ds <= k < j ==> is_digit_char(s@[k]),
            mag == digits_val(s@.subrange(ds as int, m as int)),
            mag <= 0x8000_0000u64,
        ensures
            pos <= ds <= m <= j <= n,
            m == j,
            mag == digits_val(s@.subrange(ds as int, j as int)),
            mag <= 0x8000_0000u64,
        decreases j - m,
    {
        if m >= j {
            break;
        }
        let c = s.get_char(m);
        proof {
            assert(is_digit_char(s@[m as int]));
        }
        let d = c as u32 - 48;
        proof {
            lemma_digits_val_step(s@, ds as int, m as int);
        }
        let new_mag = mag * 10 + (d as u64);
        if new_mag > 0x8000_0000u64 {
            proof {
                lemma_digits_val_prefix(s@, ds as int, m as int + 1, j as int);
                assert(digits_val(s@.subrange(ds as int, j as int)) >= new_mag);
            }
            return None;
        }
        mag = new_mag;
        m = m + 1;
    }
    if neg {
        proof {
            assert(s@[pos as int] == '-');
        }
        if mag == 0x8000_0000u64 {
            Some((i32::MIN, j))
        } else {
            let v: i32 = -((mag as u32) as i32);
            Some((v, j))
        }
    } else {
        if mag > 0x7FFF_FFFFu64 {
            return None;
        }
        Some((mag as i32, j))
    }
}

/// A bare column identifier: an alphanumeric run, never qualified.
pub open spec fn column_identifier_at(s: Seq<char>, i: int) -> Option<(ColumnIdentifierV, int)> {
    match alnum1_at(s, i) {
        Some(j) => Some(
            (ColumnIdentifierV { table_name: None, column_name: s.subrange(i, j) }, j),
        ),
        None => None,
    }
}

/// A literal in column position: an integer, else a quoted string.
pub open spec fn literal_at(s: Seq<char>, i: int) -> Option<(LiteralV, int)> {
    match i32_at(s, i) {
        Some((v, j)) => Some((LiteralV::Integer(v), j)),
        None => match quoted_at(s, i) {
            Some((t, j)) => Some((LiteralV::String(t), j)),
            None => None,
        },
    }
}

/// A column statement: the first of identifier, literal, function call that
/// matches at `i`.
pub open spec fn column_statement_at(s: Seq<char>, i: int) -> Option<(ColumnStatementV, int)>
    decreases s.len() - i, 1int,
{
    if !(0 <= i <= s.len()) {
        None
    } else {
        match column_identifier_at(s, i) {
            Some((ci, j)) => Some((ColumnStatementV::Identifier(ci), j)),
            None => match literal_at(s, i) {
                Some((l, j)) => Some((ColumnStatementV::Literal(l), j)),
                None => match function_at(s, i) {
                    Some((f, j)) => Some((ColumnStatementV::Function(f), j)),
                    None => None,
                },
            },
        }
    }
}

/// A function call: a name, `(`, arguments, `)`.
pub open spec fn function_at(s: Seq<char>, i: int) -> Option<(FunctionV, int)>
    decreases s.len() - i, 0int,
{
    if !(0 <= i <= s.len()) {
        None
    } else {
        match alpha1_at(s, i) {
            Some(j) => match char_at(s, j, '(') {
                Some(k) => {
                    if i < k && k <= s.len() {
                        match column_statement_list_at(s, k) {
                            Some((args, m)) => match char_at(s, m, ')') {
                                Some(e) => Some((FunctionV { name: s.subrange(i, j), args }, e)),
                                None => None,
                            },
                            None => None,
                        }
                    } else {
                        None
                    }
                },
                None => None,
            },
            None => None,
        }
    }
}

/// One or more column statements separated by `", "`.
pub open spec fn column_statement_list_at(s: Seq<char>, i: int) -> Option<
    (Seq<ColumnStatementV>, int),
>
    decreases s.len() - i, 2int,
{
    match column_statement_at(s, i) {
        Some((v, j)) => {
            if i < j && j <= s.len() {
                column_statement_list_rest(s, j, seq![v])
            } else {
                None
            }
        },
        None => None,
    }
}

/// The continuation of a column statement list: further `", "`-separated
/// elements appended to `acc`. A separator whose element does not parse is
/// left unconsumed.
pub open spec fn column_statement_list_rest(
    s: Seq<char>,
    i: int,
    acc: Seq<ColumnStatementV>,
) -> Option<(Seq<ColumnStatementV>, int)>
    decreases s.len() - i, 3int,
{
    if !(0 <= i <= s.len()) {
        None
    } else if tag_matches(s, i, t_sep()) {
        match column_statement_at(s, i + 2) {
            Some((v, j)) => {
                if i < j && j <= s.len() {
                    column_statement_list_rest(s, j, acc.push(v))
                } else {
                    None
                }
            },
            None => Some((acc, i)),
        }
    } else {
        Some((acc, i))
    }
}

fn x_column_identifier(s: &str, pos: usize) -> (r: Option<(ColumnIdentifier, usize)>)
    requires
        pos <= s@.len(),
    ensures
        match r {
            Some((ci, j)) => column_identifier_at(s@, pos as int) matches Some((civ, jv))
                && column_identifier_view(ci) == civ && j as int == jv && pos < j <= s@.len(),
            None => column_identifier_at(s@, pos as int) is None,
        },
{
    match x_alnum1(s, pos) {
        Some(j) => {
            let name = s.substring_char(pos, j).to_owned();
            Some((ColumnIdentifier { table_name: None, column_name: name }, j))
        },
        None => None,
    }
}

fn x_literal(s: &str, pos: usize) -> (r: Option<(Literal, usize)>)
    requires
        pos <= s@.len(),
    ensures
        match r {
            Some((l, j)) => literal_at(s@, pos as int) matches Some((lv, jv)) && literal_view(l)
                == lv && j as int == jv && pos < j <= s@.len(),
            None => literal_at(s@, pos as int) is None,
        },
{
    match x_i32(s, pos) {
        Some((v, j)) => {
            return Some((Literal::Integer(v), j));
        },
        None => {},
    }
    match x_quoted(s, pos) {
        Some((t, j)) => Some((Literal::String(t), j)),
        None => None,
    }
}

fn x_column_statement(s: &str, pos: usize) -> (r: Result<(ColumnStatement, usize), usize>)
    requires
        pos <= s@.len(),
    ensures
        (r matches Ok(p)) <==> column_statement_at(s@, pos as int) is Some,
        r matches Ok((v, j)) ==> column_statement_at(s@, pos as int) matches Some((vv, jv))
            && column_statement_view(v) == vv && j as int == jv && pos < j <= s@.len(),
        r matches Err(p) ==> p <= s@.len() && p == column_statement_err(s@, pos as int),
    decreases s@.len() - pos, 1int,
{
    match x_column_identifier(s, pos) {
        Some((ci, j)) => {
            return Ok((ColumnStatement::ColumnStatementIdentifier(ci), j));
        },
        None => {},
    }
    match x_literal(s, pos) {
        Some((l, j)) => {
            return Ok((ColumnStatement::ColumnStatementLiteral(l), j));
        },
        None => {},
    }
    match x_function(s, pos) {
        Ok((f, j)) => Ok((ColumnStatement::ColumnStatementFunction(f), j)),
        Err(p) => Err(p),
    }
}

fn x_function(s: &str, pos: usize) -> (r: Result<(Function, usize), usize>)
    requires
        pos <= s@.len(),
    ensures
        (r matches Ok(p)) <==> function_at(s@, pos as int) is Some,
        r matches Ok((f, j)) ==> function_at(s@, pos as int) matches Some((fv, jv))
            && fv == (FunctionV { name: f.name@, args: column_statements_view(f.args@) })
            && j as int == jv && pos < j <= s@.len(),
        r matches Err(p) ==> p <= s@.len() && p == function_err(s@, pos as int),
    decreases s@.len() - pos, 0int,
{
    let j = match x_alpha1(s, pos) {
        Some(j) => j,
        None => {
            return Err(pos);
        },
    };
    let k = match x_char(s, j, '(') {
        Some(k) => k,
        None => {
            return Err(j);
        },
    };
    let (args, m) = match x_column_statement_list(s, k) {
        Ok(p) => p,
        Err(p) => {
            return Err(p);
        },
    };
    let e = match x_char(s, m, ')') {
        Some(e) => e,
        None => {
            return Err(m);
        },
    };
    let name = s.substring_char(pos, j).to_owned();
    Ok((Function { name, args }, e))
}

fn x_column_statement_list(s: &str, pos: usize) -> (r: Result<(Vec<ColumnStatement>, usize), usize>)
    requires
        pos <= s@.len(),
    ensures
        (r matches Ok(p)) <==> column_statement_list_at(s@, pos as int) is Some,
        r matches Ok((v, j)) ==> column_statement_list_at(s@, pos as int) matches Some((vv, jv))
            && column_statements_view(v@) == vv && j as int == jv && pos < j <= s@.len(),
        r matches Err(p) ==> p <= s@.len() && p == column_statement_err(s@, pos as int),
    decreases s@.len() - pos, 2int,
{
    let (first, start) = match x_column_statement(s, pos) {
        Ok(p) => p,
        Err(p) => {
            return Err(p);
        },
    };
    let ghost first_v = column_statement_view(first);
    let n = s.unicode_len();
    let mut acc: Vec<ColumnStatement> = Vec::new();
    acc.push(first);
    proof {
        lemma_column_statements_view_elems(acc@);
        assert(column_statements_view(acc@) =~= seq![first_v]);
    }
    let mut cur = start;
    loop
        invariant_except_break
            n == s@.len(),
            pos < cur <= n,
            column_statement_list_rest(s@, cur as int, column_statements_view(acc@))
                == column_statement_list_at(s@, pos as int),
        ensures
            pos < cur <= s@.len(),
            column_statement_list_at(s@, pos as int) == Some(
                (column_statements_view(acc@), cur as int),
            ),
        decreases s@.len() - cur,
    {
        proof {
            lemma_tag_literals();
        }
        if !match_tag(s, cur, ", ") {
            break;
        }
        let ghost acc_v = column_statements_view(acc@);
        let ghost old_acc = acc@;
        match x_column_statement(s, cur + 2) {
            Ok((v, j2)) => {
                let ghost v_v = column_statement_view(v);
                acc.push(v);
                proof {
                    lemma_column_statements_view_elems(old_acc);
                    lemma_column_statements_view_elems(acc@);
                    assert forall|k: int| 0 <= k < acc@.len() implies column_statements_view(
                        acc@,
                    )[k] == acc_v.push(v_v)[k] by {
                        if k < old_acc.len() {
                            assert(acc@[k] == old_acc[k]);
                        } else {
                            assert(acc@[k] == v);
                        }
                    }
                    assert(column_statements_view(acc@) =~= acc_v.push(v_v));
                }
                cur = j2;
            },
            Err(_) => {
                break;
            },
        }
    }
    Ok((acc, cur))
}

/// A table in a from clause: an alphanumeric name, never aliased.
pub open spec fn table_statement_at(s: Seq<char>, i: int) -> Option<(TableStatementV, int)> {
    match alnum1_at(s, i) {
        Some(j) => Some((TableStatementV { table_name: s.subrange(i, j), alias: None }, j)),
        None => None,
    }
}

/// The continuation of a `", "`-separated table list. A separator whose
/// table does not parse is left unconsumed.
pub open spec fn table_list_rest(s: Seq<char>, i: int, acc: Seq<TableStatementV>) -> Option<
    (Seq<TableStatementV>, int),
>
    decreases s.len() - i,
{
    if !(0 <= i <= s.len()) {
        None
    } else if tag_matches(s, i, t_sep()) {
        match table_statement_at(s, i + 2) {
            Some((t, j)) => {
                if i < j && j <= s.len() {
                    table_list_rest(s, j, acc.push(t))
                } else {
                    None
                }
            },
            None => Some((acc, i)),
        }
    } else {
        Some((acc, i))
    }
}

/// A from clause source: one or more `", "`-separated tables, in source
/// order.
pub open spec fn from_statement_at(s: Seq<char>, i: int) -> Option<(Seq<TableStatementV>, int)> {
    match table_statement_at(s, i) {
        Some((t, j)) => {
            if i < j && j <= s.len() {
                table_list_rest(s, j, seq![t])
            } else {
                None
            }
        },
        None => None,
    }
}

/// The continuation of a `", "`-separated list of alphanumeric names.
pub open spec fn name_list_rest(s: Seq<char>, i: int, acc: Seq<Seq<char>>) -> Option<
    (Seq<Seq<char>>, int),
>
    decreases s.len() - i,
{
    if !(0 <= i <= s.len()) {
        None
    } else if tag_matches(s, i, t_sep()) {
        match alnum1_at(s, i + 2) {
            Some(j) => {
                if i < j && j <= s.len() {
                    name_list_rest(s, j, acc.push(s.subrange(i + 2, j)))
                } else {
                    None
                }
            },
            None => Some((acc, i)),
        }
    } else {
        Some((acc, i))
    }
}

/// One or more `", "`-separated alphanumeric names.
pub open spec fn name_list_at(s: Seq<char>, i: int) -> Option<(Seq<Seq<char>>, int)> {
    match alnum1_at(s, i) {
        Some(j) => {
            if i < j && j <= s.len() {
                name_list_rest(s, j, seq![s.subrange(i, j)])
            } else {
                None
            }
        },
        None => None,
    }
}

/// One insert value: a signed integer, else a bare alphabetic word, else a
/// quoted word — the latter two both classified as string literals.
pub open spec fn value_at(s: Seq<char>, i: int) -> Option<(LiteralV, int)> {
    match i32_at(s, i) {
        Some((v, j)) => Some((LiteralV::Integer(v), j)),
        None => match alpha1_at(s, i) {
            Some(j) => Some((LiteralV::String(s.subrange(i, j)), j)),
            None => match quoted_at(s, i) {
                Some((t, j)) => Some((LiteralV::String(t), j)),
                None => None,
            },
        },
    }
}

/// The continuation of a `", "`-separated list of insert values.
pub open spec fn value_list_rest(s: Seq<char>, i: int, acc: Seq<LiteralV>) -> Option<
    (Seq<LiteralV>, int),
>
    decreases s.len() - i,
{
    if !(0 <= i <= s.len()) {
        None
    } else if tag_matches(s, i, t_sep()) {
        match value_at(s, i + 2) {
            Some((v, j)) => {
                if i < j && j <= s.len() {
                    value_list_rest(s, j, acc.push(v))
                } else {
                    None
                }
            },
            None => Some((acc, i)),
        }
    } else {
        Some((acc, i))
    }
}

/// One or more `", "`-separated insert values.
pub open spec fn value_list_at(s: Seq<char>, i: int) -> Option<(Seq<LiteralV>, int)> {
    match value_at(s, i) {
        Some((v, j)) => {
            if i < j && j <= s.len() {
                value_list_rest(s, j, seq![v])
            } else {
                None
            }
        },
        None => None,
    }
}

/// Mathematical value of a parsed select query: its populated parts.
pub struct SelectQueryV {
    pub columns: Seq<ColumnStatementV>,
    pub tables: Seq<TableStatementV>,
}

/// Mathematical value of a parsed insert query.
pub struct InsertQueryV {
    pub table_name: Seq<char>,
    pub columns: Seq<Seq<char>>,
    pub values: Seq<LiteralV>,
}

/// Mathematical value of a parsed statement.
pub enum QueryV {
    Select(SelectQueryV),
    Insert(InsertQueryV),
}

/// `select` space columns space `from` space table `;`.
pub open spec fn select_query_at(s: Seq<char>, i: int) -> Option<(SelectQueryV, int)> {
    match word_at(s, i, t_select()) {
        Some(j1) => match space1_at(s, j1) {
            Some(j2) => match column_statement_list_at(s, j2) {
                Some((cols, j3)) => match space1_at(s, j3) {
                    Some(j4) => match word_at(s, j4, t_from()) {
                        Some(j5) => match space1_at(s, j5) {
                            Some(j6) => match from_statement_at(s, j6) {
                                Some((tabs, j7)) => match char_at(s, j7, ';') {
                                    Some(j8) => Some(
                                        (SelectQueryV { columns: cols, tables: tabs }, j8),
                                    ),
                                    None => None,
                                },
                                None => None,
                            },
                            None => None,
                        },
                        None => None,
                    },
                    None => None,
                },
                None => None,
            },
            None => None,
        },
        None => None,
    }
}

/// `insert` space `into` space table space `(` columns `)` space `values`
/// space `(` values `)` `;`.
pub open spec fn insert_query_at(s: Seq<char>, i: int) -> Option<(InsertQueryV, int)> {
    match word_at(s, i, t_insert()) {
        Some(j1) => match space1_at(s, j1) {
            Some(j2) => match word_at(s, j2, t_into()) {
                Some(j3) => match space1_at(s, j3) {
                    Some(j4) => match alnum1_at(s, j4) {
                        Some(j5) => match space1_at(s, j5) {
                            Some(j6) => match char_at(s, j6, '(') {
                                Some(j7) => match name_list_at(s, j7) {
                                    Some((cols, j8)) => match char_at(s, j8, ')') {
                                        Some(j9) => match space1_at(s, j9) {
                                            Some(j10) => match word_at(s, j10, t_values()) {
                                                Some(j11) => match space1_at(s, j11) {
                                                    Some(j12) => match char_at(s, j12, '(') {
                                                        Some(j13) => match value_list_at(s, j13) {
                                                            Some((vals, j14)) => match char_at(
                                                                s,
                                                                j14,
                                                                ')',
                                                            ) {
                                                                Some(j15) => match char_at(
                                                                    s,
                                                                    j15,
                                                                    ';',
                                                                ) {
                                                                    Some(j16) => Some(
                                                                        (
                                                                            InsertQueryV {
                                                                                table_name: s.subrange(j4, j5),
                                                                                columns: cols,
                                                                                values: vals,
                                                                            },
                                                                            j16,
                                                                        ),
                                                                    ),
                                                                    None => None,
                                                                },
                                                                None => None,
                                                            },
                                                            None => None,
                                                        },
                                                        None => None,
                                                    },
                                                    None => None,
                                                },
                                                None => None,
                                            },
                                            None => None,
                                        },
                                        None => None,
                                    },
                                    None => None,
                                },
                                None => None,
                            },
                            None => None,
                        },
                        None => None,
                    },
                    None => None,
                },
                None => None,
            },
            None => None,
        },
        None => None,
    }
}

/// One statement: a select query, else an insert query — ordered choice, so
/// an input opening with the select keyword is never routed into the insert
/// rule.
pub open spec fn query_at(s: Seq<char>, i: int) -> Option<(QueryV, int)> {
    match select_query_at(s, i) {
        Some((q, j)) => Some((QueryV::Select(q), j)),
        None => match insert_query_at(s, i) {
            Some((q, j)) => Some((QueryV::Insert(q), j)),
            None => None,
        },
    }
}

/// The continuation of a `;`-separated list of statements. A separator whose
/// statement does not parse is left unconsumed.
pub open spec fn queries_rest(s: Seq<char>, i: int, acc: Seq<QueryV>) -> Option<
    (Seq<QueryV>, int),
>
    decreases s.len() - i,
{
    if !(0 <= i <= s.len()) {
        None
    } else {
        match char_at(s, i, ';') {
            Some(j) => match query_at(s, j) {
                Some((q, k)) => {
                    if i < k && k <= s.len() {
                        queries_rest(s, k, acc.push(q))
                    } else {
                        None
                    }
                },
                None => Some((acc, i)),
            },
            None => Some((acc, i)),
        }
    }
}

/// One or more `;`-separated statements.
pub open spec fn queries_at(s: Seq<char>, i: int) -> Option<(Seq<QueryV>, int)> {
    match query_at(s, i) {
        Some((q, j)) => {
            if i < j && j <= s.len() {
                queries_rest(s, j, seq![q])
            } else {
                None
            }
        },
        None => None,
    }
}

/// Where the function-call rule fails, when it fails: the name, the opening
/// parenthesis, the first argument, or the closing parenthesis.
pub open spec fn function_err(s: Seq<char>, i: int) -> int
    decreases s.len() - i, 0int,
{
    if !(0 <= i <= s.len()) {
        i
    } else {
        match alpha1_at(s, i) {
            Some(j) => match char_at(s, j, '(') {
                Some(k) => {
                    if i < k && k <= s.len() {
                        match column_statement_list_at(s, k) {
                            Some((args, m)) => m,
                            None => column_statement_err(s, k),
                        }
                    } else {
                        i
                    }
                },
                None => j,
            },
            None => i,
        }
    }
}

/// Where the column-statement rule fails, when all its alternatives fail:
/// the last alternative, the function call, consumed the most input, so its
/// position is surfaced.
pub open spec fn column_statement_err(s: Seq<char>, i: int) -> int
    decreases s.len() - i, 1int,
{
    function_err(s, i)
}

/// Where the select rule fails, when it fails: the first step of the
/// sequence that does not match.
pub open spec fn select_query_err(s: Seq<char>, i: int) -> int {
    match word_at(s, i, t_select()) {
        Some(j1) => match space1_at(s, j1) {
            Some(j2) => match column_statement_list_at(s, j2) {
                Some((cols, j3)) => match space1_at(s, j3) {
                    Some(j4) => match word_at(s, j4, t_from()) {
                        Some(j5) => match space1_at(s, j5) {
                            Some(j6) => match from_statement_at(s, j6) {
                                Some((tabs, j7)) => j7,
                                None => j6,
                            },
                            None => j5,
                        },
                        None => j4,
                    },
                    None => j3,
                },
                None => column_statement_err(s, j2),
            },
            None => j1,
        },
        None => i,
    }
}

/// Where the insert rule fails, when it fails: the first step of the
/// sequence that does not match.
pub open spec fn insert_query_err(s: Seq<char>, i: int) -> int {
    match word_at(s, i, t_insert()) {
        Some(j1) => match space1_at(s, j1) {
            Some(j2) => match word_at(s, j2, t_into()) {
                Some(j3) => match space1_at(s, j3) {
                    Some(j4) => match alnum1_at(s, j4) {
                        Some(j5) => match space1_at(s, j5) {
                            Some(j6) => match char_at(s, j6, '(') {
                                Some(j7) => match name_list_at(s, j7) {
                                    Some((cols, j8)) => match char_at(s, j8, ')') {
                                        Some(j9) => match space1_at(s, j9) {
                                            Some(j10) => match word_at(s, j10, t_values()) {
                                                Some(j11) => match space1_at(s, j11) {
                                                    Some(j12) => match char_at(s, j12, '(') {
                                                        Some(j13) => match value_list_at(s, j13) {
                                                            Some((vals, j14)) => match char_at(
                                                                s,
                                                                j14,
                                                                ')',
                                                            ) {
                                                                Some(j15) => j15,
                                                                None => j14,
                                                            },
                                                            None => j13,
                                                        },
                                                        None => j12,
                                                    },
                                                    None => j11,
                                                },
                                                None => j10,
                                            },
                                            None => j9,
                                        },
                                        None => j8,
                                    },
                                    None => j7,
                                },
                                None => j6,
                            },
                            None => j5,
                        },
                        None => j4,
                    },
                    None => j3,
                },
                None => j2,
            },
            None => j1,
        },
        None => i,
    }
}

/// Where the statement rule fails, when both alternatives fail: the position
/// of the alternative that consumed the most input.
pub open spec fn query_err(s: Seq<char>, i: int) -> int {
    if select_query_err(s, i) >= insert_query_err(s, i) {
        select_query_err(s, i)
    } else {
        insert_query_err(s, i)
    }
}

/// A parsed select query carries exactly the populated parts of its value:
/// its columns and tables, nothing else.
pub open spec fn select_query_matches(q: SelectQuery, v: SelectQueryV) -> bool {
    &&& column_statements_view(q.select_statement.columns@) == v.columns
    &&& q.select_statement.distinct == false
    &&& table_statements_view(q.from_statement.tables@) == v.tables
    &&& q.from_statement.joins@ == Seq::<JoinStatement>::empty()
    &&& q.where_statement is None
    &&& q.order_by_statement is None
    &&& q.group_by_statement is None
    &&& q.having_statement is None
    &&& q.limit_statement is None
}

pub open spec fn insert_query_matches(q: InsertQuery, v: InsertQueryV) -> bool {
    &&& q.table_name@ == v.table_name
    &&& strings_view(q.columns@) == v.columns
    &&& literals_view(q.values@) == v.values
}

pub open spec fn query_matches(q: Query, v: QueryV) -> bool {
    match q {
        Query::Select(sq) => v matches QueryV::Select(sv) && select_query_matches(sq, sv),
        Query::Insert(iq) => v matches QueryV::Insert(iv) && insert_query_matches(iq, iv),
        _ => false,
    }
}

pub open spec fn queries_match(qs: Seq<Query>, vs: Seq<QueryV>) -> bool {
    qs.len() == vs.len() && (forall|k: int| 0 <= k < qs.len() ==> query_matches(
        #[trigger] qs[k],
        vs[k],
    ))
}

fn x_table_statement(s: &str, pos: usize) -> (r: Result<(TableStatement, usize), usize>)
    requires
        pos <= s@.len(),
    ensures
        (r matches Ok(p)) <==> table_statement_at(s@, pos as int) is Some,
        r matches Ok((t, j)) ==> table_statement_at(s@, pos as int) matches Some((tv, jv))
            && table_statement_view(t) == tv && j as int == jv && pos < j <= s@.len(),
        r matches Err(p) ==> p == pos,
{
    match x_alnum1(s, pos) {
        Some(j) => {
            let name = s.substring_char(pos, j).to_owned();
            Ok((TableStatement { table_name: name, alias: None }, j))
        },
        None => Err(pos),
    }
}

fn x_from_statement(s: &str, pos: usize) -> (r: Result<(FromStatement, usize), usize>)
    requires
        pos <= s@.len(),
    ensures
        (r matches Ok(p)) <==> from_statement_at(s@, pos as int) is Some,
        r matches Ok((f, j)) ==> from_statement_at(s@, pos as int) matches Some((tv, jv))
            && table_statements_view(f.tables@) == tv && f.joins@ == Seq::<JoinStatement>::empty()
            && j as int == jv && pos < j <= s@.len(),
        r matches Err(p) ==> p == pos,
{
    let n = s.unicode_len();
    let (first, first_end) = match x_table_statement(s, pos) {
        Ok(p) => p,
        Err(p) => {
            return Err(p);
        },
    };
    let ghost first_v = table_statement_view(first);
    let mut tables: Vec<TableStatement> = Vec::new();
    tables.push(first);
    proof {
        assert(table_statements_view(tables@) =~= seq![first_v]);
    }
    let mut cur = first_end;
    loop
        invariant_except_break
            n == s@.len(),
            pos < cur <= n,
            table_list_rest(s@, cur as int, table_statements_view(tables@)) == from_statement_at(
                s@,
                pos as int,
            ),
        ensures
            pos < cur <= n,
            n == s@.len(),
            from_statement_at(s@, pos as int) == Some(
                (table_statements_view(tables@), cur as int),
            ),
        decreases s@.len() - cur,
    {
        proof {
            lemma_tag_literals();
        }
        if !match_tag(s, cur, ", ") {
            break;
        }
        let ghost acc_v = table_statements_view(tables@);
        match x_table_statement(s, cur + 2) {
            Ok((t, j)) => {
                let ghost t_v = table_statement_view(t);
                tables.push(t);
                proof {
                    assert(table_statements_view(tables@) =~= acc_v.push(t_v));
                }
                cur = j;
            },
            Err(_) => {
                break;
            },
        }
    }
    let f = FromStatement { tables, joins: Vec::new() };
    proof {
        assert(f.joins@ =~= Seq::<JoinStatement>::empty());
    }
    Ok((f, cur))
}

fn x_name_list(s: &str, pos: usize) -> (r: Result<(Vec<String>, usize), usize>)
    requires
        pos <= s@.len(),
    ensures
        (r matches Ok(p)) <==> name_list_at(s@, pos as int) is Some,
        r matches Ok((v, j)) ==> name_list_at(s@, pos as int) matches Some((vv, jv))
            && strings_view(v@) == vv && j as int == jv && pos < j <= s@.len(),
        r matches Err(p) ==> p == pos,
{
    let n = s.unicode_len();
    let first_end = match x_alnum1(s, pos) {
        Some(j) => j,
        None => {
            return Err(pos);
        },
    };
    let mut acc: Vec<String> = Vec::new();
    acc.push(s.substring_char(pos, first_end).to_owned());
    proof {
        assert(strings_view(acc@) =~= seq![s@.subrange(pos as int, first_end as int)]);
    }
    let mut cur = first_end;
    loop
        invariant_except_break
            n == s@.len(),
            pos < cur <= n,
            name_list_rest(s@, cur as int, strings_view(acc@)) == name_list_at(s@, pos as int),
        ensures
            pos < cur <= n,
            n == s@.len(),
            name_list_at(s@, pos as int) == Some((strings_view(acc@), cur as int)),
        decreases s@.len() - cur,
    {
        proof {
            lemma_tag_literals();
        }
        if !match_tag(s, cur, ", ") {
            break;
        }
        let ghost acc_v = strings_view(acc@);
        match x_alnum1(s, cur + 2) {
            Some(j) => {
                let name = s.substring_char(cur + 2, j).to_owned();
                let ghost name_v = name@;
                acc.push(name);
                proof {
                    assert(strings_view(acc@) =~= acc_v.push(name_v));
                }
                cur = j;
            },
            None => {
                break;
            },
        }
    }
    Ok((acc, cur))
}

fn x_value(s: &str, pos: usize) -> (r: Option<(Literal, usize)>)
    requires
        pos <= s@.len(),
    ensures
        match r {
            Some((l, j)) => value_at(s@, pos as int) matches Some((lv, jv)) && literal_view(l)
                == lv && j as int == jv && pos < j <= s@.len(),
            None => value_at(s@, pos as int) is None,
        },
{
    match x_i32(s, pos) {
        Some((v, j)) => {
            return Some((Literal::Integer(v), j));
        },
        None => {},
    }
    match x_alpha1(s, pos) {
        Some(j) => {
            let text = s.substring_char(pos, j).to_owned();
            return Some((Literal::String(text), j));
        },
        None => {},
    }
    match x_quoted(s, pos) {
        Some((t, j)) => Some((Literal::String(t), j)),
        None => None,
    }
}

fn x_value_list(s: &str, pos: usize) -> (r: Result<(Vec<Literal>, usize), usize>)
    requires
        pos <= s@.len(),
    ensures
        (r matches Ok(p)) <==> value_list_at(s@, pos as int) is Some,
        r matches Ok((v, j)) ==> value_list_at(s@, pos as int) matches Some((vv, jv))
            && literals_view(v@) == vv && j as int == jv && pos < j <= s@.len(),
        r matches Err(p) ==> p == pos,
{
    let n = s.unicode_len();
    let (first, first_end) = match x_value(s, pos) {
        Some(p) => p,
        None => {
            return Err(pos);
        },
    };
    let ghost first_v = literal_view(first);
    let mut acc: Vec<Literal> = Vec::new();
    acc.push(first);
    proof {
        assert(literals_view(acc@) =~= seq![first_v]);
    }
    let mut cur = first_end;
    loop
        invariant_except_break
            n == s@.len(),
            pos < cur <= n,
            value_list_rest(s@, cur as int, literals_view(acc@)) == value_list_at(s@, pos as int),
        ensures
            pos < cur <= n,
            n == s@.len(),
            value_list_at(s@, pos as int) == Some((literals_view(acc@), cur as int)),
        decreases s@.len() - cur,
    {
        proof {
            lemma_tag_literals();
        }
        if !match_tag(s, cur, ", ") {
            break;
        }
        let ghost acc_v = literals_view(acc@);
        match x_value(s, cur + 2) {
            Some((v, j)) => {
                let ghost v_v = literal_view(v);
                acc.push(v);
                proof {
                    assert(literals_view(acc@) =~= acc_v.push(v_v));
                }
                cur = j;
            },
            None => {
                break;
            },
        }
    }
    Ok((acc, cur))
}

fn x_select_query(s: &str, pos: usize) -> (r: Result<(SelectQuery, usize), usize>)
    requires
        pos <= s@.len(),
    ensures
        (r matches Ok(p)) <==> select_query_at(s@, pos as int) is Some,
        r matches Ok((q, j)) ==> select_query_at(s@, pos as int) matches Some((qv, jv))
            && select_query_matches(q, qv) && j as int == jv && pos < j <= s@.len(),
        r matches Err(p) ==> p <= s@.len() && p == select_query_err(s@, pos as int),
{
    proof {
        lemma_tag_literals();
    }
    let j1 = match x_word(s, pos, "select") {
        Some(j) => j,
        None => {
            return Err(pos);
        },
    };
    let j2 = match x_space1(s, j1) {
        Some(j) => j,
        None => {
            return Err(j1);
        },
    };
    let (columns, j3) = match x_column_statement_list(s, j2) {
        Ok(p) => p,
        Err(p) => {
            return Err(p);
        },
    };
    let j4 = match x_space1(s, j3) {
        Some(j) => j,
        None => {
            return Err(j3);
        },
    };
    let j5 = match x_word(s, j4, "from") {
        Some(j) => j,
        None => {
            return Err(j4);
        },
    };
    let j6 = match x_space1(s, j5) {
        Some(j) => j,
        None => {
            return Err(j5);
        },
    };
    let (from_statement, j7) = match x_from_statement(s, j6) {
        Ok(p) => p,
        Err(p) => {
            return Err(p);
        },
    };
    let j8 = match x_char(s, j7, ';') {
        Some(j) => j,
        None => {
            return Err(j7);
        },
    };
    let q = SelectQuery {
        select_statement: SelectStatement { columns, distinct: false },
        from_statement,
        where_statement: None,
        order_by_statement: None,
        group_by_statement: None,
        having_statement: None,
        limit_statement: None,
    };
    Ok((q, j8))
}

fn x_insert_query(s: &str, pos: usize) -> (r: Result<(InsertQuery, usize), usize>)
    requires
        pos <= s@.len(),
    ensures
        (r matches Ok(p)) <==> insert_query_at(s@, pos as int) is Some,
        r matches Ok((q, j)) ==> insert_query_at(s@, pos as int) matches Some((qv, jv))
            && insert_query_matches(q, qv) && j as int == jv && pos < j <= s@.len(),
        r matches Err(p) ==> p <= s@.len() && p == insert_query_err(s@, pos as int),
{
    proof {
        lemma_tag_literals();
    }
    let j1 = match x_word(s, pos, "insert") {
        Some(j) => j,
        None => {
            return Err(pos);
        },
    };
    let j2 = match x_space1(s, j1) {
        Some(j) => j,
        None => {
            return Err(j1);
        },
    };
    let j3 = match x_word(s, j2, "into") {
        Some(j) => j,
        None => {
            return Err(j2);
        },
    };
    let j4 = match x_space1(s, j3) {
        Some(j) => j,
        None => {
            return Err(j3);
        },
    };
    let j5 = match x_alnum1(s, j4) {
        Some(j) => j,
        None => {
            return Err(j4);
        },
    };
    let j6 = match x_space1(s, j5) {
        Some(j) => j,
        None => {
            return Err(j5);
        },
    };
    let j7 = match x_char(s, j6, '(') {
        Some(j) => j,
        None => {
            return Err(j6);
        },
    };
    let (columns, j8) = match x_name_list(s, j7) {
        Ok(p) => p,
        Err(p) => {
            return Err(p);
        },
    };
    let j9 = match x_char(s, j8, ')') {
        Some(j) => j,
        None => {
            return Err(j8);
        },
    };
    let j10 = match x_space1(s, j9) {
        Some(j) => j,
        None => {
            return Err(j9);
        },
    };
    let j11 = match x_word(s, j10, "values") {
        Some(j) => j,
        None => {
            return Err(j10);
        },
    };
    let j12 = match x_space1(s, j11) {
        Some(j) => j,
        None => {
            return Err(j11);
        },
    };
    let j13 = match x_char(s, j12, '(') {
        Some(j) => j,
        None => {
            return Err(j12);
        },
    };
    let (values, j14) = match x_value_list(s, j13) {
        Ok(p) => p,
        Err(p) => {
            return Err(p);
        },
    };
    let j15 = match x_char(s, j14, ')') {
        Some(j) => j,
        None => {
            return Err(j14);
        },
    };
    let j16 = match x_char(s, j15, ';') {
        Some(j) => j,
        None => {
            return Err(j15);
        },
    };
    let table_name = s.substring_char(j4, j5).to_owned();
    Ok((InsertQuery { table_name, columns, values }, j16))
}

fn x_query(s: &str, pos: usize) -> (r: Result<(Query, usize), usize>)
    requires
        pos <= s@.len(),
    ensures
        (r matches Ok(p)) <==> query_at(s@, pos as int) is Some,
        r matches Ok((q, j)) ==> query_at(s@, pos as int) matches Some((qv, jv)) && query_matches(
            q,
            qv,
        ) && j as int == jv && pos < j <= s@.len(),
        r matches Err(p) ==> p <= s@.len() && p == query_err(s@, pos as int),
{
    let p1 = match x_select_query(s, pos) {
        Ok((q, j)) => {
            return Ok((Query::Select(q), j));
        },
        Err(p) => p,
    };
    match x_insert_query(s, pos) {
        Ok((q, j)) => Ok((Query::Insert(q), j)),
        Err(p2) => {
            if p1 >= p2 {
                Err(p1)
            } else {
                Err(p2)
            }
        },
    }
}

fn x_queries(s: &str, pos: usize) -> (r: Result<(Vec<Query>, usize), usize>)
    requires
        pos <= s@.len(),
    ensures
        (r matches Ok(p)) <==> queries_at(s@, pos as int) is Some,
        r matches Ok((v, j)) ==> queries_at(s@, pos as int) matches Some((vv, jv))
            && queries_match(v@, vv) && j as int == jv && pos < j <= s@.len(),
        r matches Err(p) ==> p <= s@.len() && p == query_err(s@, pos as int),
{
    let n = s.unicode_len();
    let (first, first_end) = match x_query(s, pos) {
        Ok(p) => p,
        Err(p) => {
            return Err(p);
        },
    };
    let ghost first_v = choose|qv: QueryV| query_at(s@, pos as int) == Some(
        (qv, first_end as int),
    ) && query_matches(first, qv);
    let mut acc: Vec<Query> = Vec::new();
    let ghost mut acc_vs = seq![first_v];
    acc.push(first);
    proof {
        assert(queries_match(acc@, acc_vs));
    }
    let mut cur = first_end;
    loop
        invariant_except_break
            n == s@.len(),
            pos < cur <= n,
            queries_match(acc@, acc_vs),
            queries_rest(s@, cur as int, acc_vs) == queries_at(s@, pos as int),
        ensures
            pos < cur <= n,
            n == s@.len(),
            queries_at(s@, pos as int) matches Some((vv, jv)) && queries_match(acc@, vv) && jv
                == cur as int,
        decreases s@.len() - cur,
    {
        let j = match x_char(s, cur, ';') {
            Some(j) => j,
            None => {
                break;
            },
        };
        match x_query(s, j) {
            Ok((q, k)) => {
                let ghost q_v = choose|qv: QueryV| query_at(s@, j as int) == Some(
                    (qv, k as int),
                ) && query_matches(q, qv);
                let ghost old_acc = acc@;
                acc.push(q);
                proof {
                    acc_vs = acc_vs.push(q_v);
                    assert forall|k2: int| 0 <= k2 < acc@.len() implies query_matches(
                        #[trigger] acc@[k2],
                        acc_vs[k2],
                    ) by {
                        if k2 < old_acc.len() {
                            assert(acc@[k2] == old_acc[k2]);
                        }
                    }
                }
                cur = k;
            },
            Err(_) => {
                break;
            },
        }
    }
    Ok((acc, cur))
}

/// A structured failure at `at`, carrying the unconsumed remainder.
fn fail_at(input: &str, at: usize) -> (e: ParseError)
    requires
        at <= input@.len(),
    ensures
        e.pos == at,
        e.remainder@ == input@.subrange(at as int, input@.len() as int),
{
    let n = input.unicode_len();
    ParseError { pos: at, remainder: input.substring_char(at, n).to_owned() }
}

impl Queries {
    /// Parses one or more `;`-separated statements, returning the unconsumed
    /// remainder alongside them.
    pub fn parse<'a>(input: &'a str) -> (r: Result<(&'a str, Queries), ParseError>)
        ensures
            (r matches Ok(p)) <==> queries_at(input@, 0) is Some,
            r matches Ok((rem, qs)) ==> queries_at(input@, 0) matches Some((vv, jv))
                && queries_match(qs.queries@, vv) && rem@ == input@.subrange(
                jv,
                input@.len() as int,
            ),
        r matches Err(e) ==> e.pos <= input@.len() && e.remainder@ == input@.subrange(
            e.pos as int,
            input@.len() as int,
        ) && e.pos == query_err(input@, 0),
    {
        match x_queries(input, 0) {
            Ok((queries, j)) => {
                let n = input.unicode_len();
                let rem = input.substring_char(j, n);
                Ok((rem, Queries { queries }))
            },
            Err(p) => Err(fail_at(input, p)),
        }
    }
}

impl Query {
    /// Parses one statement: a select query, else an insert query. When both
    /// alternatives fail, the error of the one that consumed more input is
    /// surfaced.
    pub fn parse<'a>(input: &'a str) -> (r: Result<(&'a str, Query), ParseError>)
        ensures
            (r matches Ok(p)) <==> query_at(input@, 0) is Some,
            r matches Ok((rem, q)) ==> query_at(input@, 0) matches Some((qv, jv))
                && query_matches(q, qv) && rem@ == input@.subrange(jv, input@.len() as int),
        r matches Err(e) ==> e.pos <= input@.len() && e.remainder@ == input@.subrange(
            e.pos as int,
            input@.len() as int,
        ) && e.pos == query_err(input@, 0),
    {
        match x_query(input, 0) {
            Ok((q, j)) => {
                let n = input.unicode_len();
                let rem = input.substring_char(j, n);
                Ok((rem, q))
            },
            Err(p) => Err(fail_at(input, p)),
        }
    }
}

impl SelectQuery {
    /// Parses one select query.
    pub fn parse<'a>(input: &'a str) -> (r: Result<(&'a str, SelectQuery), ParseError>)
        ensures
            (r matches Ok(p)) <==> select_query_at(input@, 0) is Some,
            r matches Ok((rem, q)) ==> select_query_at(input@, 0) matches Some((qv, jv))
                && select_query_matches(q, qv) && rem@ == input@.subrange(
                jv,
                input@.len() as int,
            ),
        r matches Err(e) ==> e.pos <= input@.len() && e.remainder@ == input@.subrange(
            e.pos as int,
            input@.len() as int,
        ) && e.pos == select_query_err(input@, 0),
    {
        match x_select_query(input, 0) {
            Ok((q, j)) => {
                let n = input.unicode_len();
                let rem = input.substring_char(j, n);
                Ok((rem, q))
            },
            Err(p) => Err(fail_at(input, p)),
        }
    }
}

impl InsertQuery {
    /// Parses one insert query.
    pub fn parse<'a>(input: &'a str) -> (r: Result<(&'a str, InsertQuery), ParseError>)
        ensures
            (r matches Ok(p)) <==> insert_query_at(input@, 0) is Some,
            r matches Ok((rem, q)) ==> insert_query_at(input@, 0) matches Some((qv, jv))
                && insert_query_matches(q, qv) && rem@ == input@.subrange(
                jv,
                input@.len() as int,
            ),
        r matches Err(e) ==> e.pos <= input@.len() && e.remainder@ == input@.subrange(
            e.pos as int,
            input@.len() as int,
        ) && e.pos == insert_query_err(input@, 0),
    {
        match x_insert_query(input, 0) {
            Ok((q, j)) => {
                let n = input.unicode_len();
                let rem = input.substring_char(j, n);
                Ok((rem, q))
            },
            Err(p) => Err(fail_at(input, p)),
        }
    }
}

impl SelectStatement {
    /// Parses a `", "`-separated column list.
    pub fn parse<'a>(input: &'a str) -> (r: Result<(&'a str, SelectStatement), ParseError>)
        ensures
            (r matches Ok(p)) <==> column_statement_list_at(input@, 0) is Some,
            r matches Ok((rem, st)) ==> column_statement_list_at(input@, 0) matches Some(
                (vv, jv),
            ) && column_statements_view(st.columns@) == vv && st.distinct == false && rem@
                == input@.subrange(jv, input@.len() as int),
        r matches Err(e) ==> e.pos <= input@.len() && e.remainder@ == input@.subrange(
            e.pos as int,
            input@.len() as int,
        ) && e.pos == column_statement_err(input@, 0),
    {
        match x_column_statement_list(input, 0) {
            Ok((columns, j)) => {
                let n = input.unicode_len();
                let rem = input.substring_char(j, n);
                Ok((rem, SelectStatement { columns, distinct: false }))
            },
            Err(p) => Err(fail_at(input, p)),
        }
    }
}

impl ColumnStatement {
    /// Parses one column statement: the first of identifier, literal,
    /// function call that matches.
    pub fn parse<'a>(input: &'a str) -> (r: Result<(&'a str, ColumnStatement), ParseError>)
        ensures
            (r matches Ok(p)) <==> column_statement_at(input@, 0) is Some,
            r matches Ok((rem, c)) ==> column_statement_at(input@, 0) matches Some((cv, jv))
                && column_statement_view(c) == cv && rem@ == input@.subrange(
                jv,
                input@.len() as int,
            ),
        r matches Err(e) ==> e.pos <= input@.len() && e.remainder@ == input@.subrange(
            e.pos as int,
            input@.len() as int,
        ) && e.pos == column_statement_err(input@, 0),
    {
        match x_column_statement(input, 0) {
            Ok((c, j)) => {
                let n = input.unicode_len();
                let rem = input.substring_char(j, n);
                Ok((rem, c))
            },
            Err(p) => Err(fail_at(input, p)),
        }
    }
}

impl ColumnIdentifier {
    /// Parses a bare column identifier.
    pub fn parse<'a>(input: &'a str) -> (r: Result<(&'a str, ColumnIdentifier), ParseError>)
        ensures
            (r matches Ok(p)) <==> column_identifier_at(input@, 0) is Some,
            r matches Ok((rem, c)) ==> column_identifier_at(input@, 0) matches Some((cv, jv))
                && column_identifier_view(c) == cv && rem@ == input@.subrange(
                jv,
                input@.len() as int,
            ),
        r matches Err(e) ==> e.pos <= input@.len() && e.remainder@ == input@.subrange(
            e.pos as int,
            input@.len() as int,
        ) && e.pos == 0,
    {
        match x_column_identifier(input, 0) {
            Some((c, j)) => {
                let n = input.unicode_len();
                let rem = input.substring_char(j, n);
                Ok((rem, c))
            },
            None => Err(fail_at(input, 0)),
        }
    }
}

impl Literal {
    /// Parses a literal: an integer, else a quoted string.
    pub fn parse<'a>(input: &'a str) -> (r: Result<(&'a str, Literal), ParseError>)
        ensures
            (r matches Ok(p)) <==> literal_at(input@, 0) is Some,
            r matches Ok((rem, l)) ==> literal_at(input@, 0) matches Some((lv, jv))
                && literal_view(l) == lv && rem@ == input@.subrange(jv, input@.len() as int),
        r matches Err(e) ==> e.pos <= input@.len() && e.remainder@ == input@.subrange(
            e.pos as int,
            input@.len() as int,
        ) && e.pos == 0,
    {
        match x_literal(input, 0) {
            Some((l, j)) => {
                let n = input.unicode_len();
                let rem = input.substring_char(j, n);
                Ok((rem, l))
            },
            None => Err(fail_at(input, 0)),
        }
    }
}

impl Function {
    /// Parses a function call over column statements.
    pub fn parse<'a>(input: &'a str) -> (r: Result<(&'a str, Function), ParseError>)
        ensures
            (r matches Ok(p)) <==> function_at(input@, 0) is Some,
            r matches Ok((rem, f)) ==> function_at(input@, 0) matches Some((fv, jv)) && fv
                == (FunctionV { name: f.name@, args: column_statements_view(f.args@) }) && rem@
                == input@.subrange(jv, input@.len() as int),
        r matches Err(e) ==> e.pos <= input@.len() && e.remainder@ == input@.subrange(
            e.pos as int,
            input@.len() as int,
        ) && e.pos == function_err(input@, 0),
    {
        match x_function(input, 0) {
            Ok((f, j)) => {
                let n = input.unicode_len();
                let rem = input.substring_char(j, n);
                Ok((rem, f))
            },
            Err(p) => Err(fail_at(input, p)),
        }
    }
}

impl FromStatement {
    /// Parses a from clause source: a single table, no joins.
    pub fn parse<'a>(input: &'a str) -> (r: Result<(&'a str, FromStatement), ParseError>)
        ensures
            (r matches Ok(p)) <==> from_statement_at(input@, 0) is Some,
            r matches Ok((rem, f)) ==> from_statement_at(input@, 0) matches Some((tv, jv))
                && table_statements_view(f.tables@) == tv && f.joins@
                == Seq::<JoinStatement>::empty() && rem@ == input@.subrange(
                jv,
                input@.len() as int,
            ),
        r matches Err(e) ==> e.pos <= input@.len() && e.remainder@ == input@.subrange(
            e.pos as int,
            input@.len() as int,
        ) && e.pos == 0,
    {
        match x_from_statement(input, 0) {
            Ok((f, j)) => {
                let n = input.unicode_len();
                let rem = input.substring_char(j, n);
                Ok((rem, f))
            },
            Err(p) => Err(fail_at(input, p)),
        }
    }
}

impl TableStatement {
    /// Parses one table reference.
    pub fn parse<'a>(input: &'a str) -> (r: Result<(&'a str, TableStatement), ParseError>)
        ensures
            (r matches Ok(p)) <==> table_statement_at(input@, 0) is Some,
            r matches Ok((rem, t)) ==> table_statement_at(input@, 0) matches Some((tv, jv))
                && table_statement_view(t) == tv && rem@ == input@.subrange(
                jv,
                input@.len() as int,
            ),
        r matches Err(e) ==> e.pos <= input@.len() && e.remainder@ == input@.subrange(
            e.pos as int,
            input@.len() as int,
        ) && e.pos == 0,
    {
        match x_table_statement(input, 0) {
            Ok((t, j)) => {
                let n = input.unicode_len();
                let rem = input.substring_char(j, n);
                Ok((rem, t))
            },
            Err(p) => Err(fail_at(input, p)),
        }
    }
}

/// Parses a `", "`-separated list of alphanumeric names.
pub fn parse_columns<'a>(input: &'a str) -> (r: Result<(&'a str, Vec<String>), ParseError>)
    ensures
        (r matches Ok(p)) <==> name_list_at(input@, 0) is Some,
        r matches Ok((rem, v)) ==> name_list_at(input@, 0) matches Some((vv, jv)) && strings_view(
            v@,
        ) == vv && rem@ == input@.subrange(jv, input@.len() as int),
        r matches Err(e) ==> e.pos <= input@.len() && e.remainder@ == input@.subrange(
            e.pos as int,
            input@.len() as int,
        ) && e.pos == 0,
{
    match x_name_list(input, 0) {
        Ok((v, j)) => {
            let n = input.unicode_len();
            let rem = input.substring_char(j, n);
            Ok((rem, v))
        },
        Err(p) => Err(fail_at(input, p)),
    }
}

/// A statement that opens with the select keyword is never routed into the
/// insert rule: the ordered choice in `query_at` settles on the select
/// alternative or fails.
pub proof fn lemma_select_prefix_never_insert(s: Seq<char>, i: int)
    requires
        word_at(s, i, t_select()) is Some,
    ensures
        insert_query_at(s, i) is None,
{
    assert(s.subrange(i, i + 6)[0] == s[i]);
    assert(t_select()[0] == 's');
    assert(s[i] == 's');
    if tag_matches(s, i, t_insert()) {
        assert(t_insert()[0] == 'i');
        assert(s[i] == 'i');
    }
    assert(word_at(s, i, t_insert()) is None);
}

} // verus!
