//! Recursive-descent parser for the `CREATE TABLE` dialect.
//!
//! The grammar, in order:
//!
//! ```text
//! "CREATE TABLE "   (case-insensitive, trailing space required)
//! ["IF NOT EXISTS"] (case-insensitive, optional; sets a flag)
//! <identifier>      (runs up to the next space, non-empty)
//! " "               (literal single space)
//! "("               (literal)
//! <column>( ", " <column>)*    (possibly empty)
//! ")"               (literal)
//! ```
//!
//! where a column is `<identifier> <whitespace run> ("Date" | "String")`.
//! Trailing input after `)` is not consumed and not rejected.
//!
//! Each executable parsing function is specified against a spec-level
//! parser over `Seq<char>`; [`spec_parse_table`] is the reference meaning
//! of the whole grammar.

use vstd::prelude::*;
use vstd::string::StrSliceExecFns;
use vstd::string::StringExecFns;
use crate::ast::{Col, ColModel, Table, TableModel};

verus! {

/// A parse failure. Carries the residual input at the point of failure for
/// diagnostic purposes; its contents are not part of any contract.
#[derive(Debug, Clone, PartialEq, Eq)]
pub struct ParseError {
    pub rest: String,
}

/// ASCII lowercasing of a single character; all other characters are kept.
pub open spec fn lower_char(c: char) -> char {
    if 'A' <= c && c <= 'Z' {
        ((c as u8) + 32) as char
    } else {
        c
    }
}

/// Case-insensitive (ASCII) equality of two character sequences.
pub open spec fn eq_ignore_case(s: Seq<char>, pat: Seq<char>) -> bool {
    s.len() == pat.len() && forall|i: int|
        0 <= i < s.len() ==> lower_char(#[trigger] s[i]) == lower_char(pat[i])
}

/// The characters accepted between a column name and its type.
pub open spec fn is_inner_ws(c: char) -> bool {
    c == ' ' || c == '\t' || c == '\r' || c == '\n'
}

/// Length of the maximal whitespace run at the head of `s`.
pub open spec fn ws_run_len(s: Seq<char>) -> nat
    decreases s.len(),
{
    if s.len() == 0 || !is_inner_ws(s[0]) {
        0
    } else {
        (ws_run_len(s.skip(1)) + 1) as nat
    }
}

/// An identifier runs up to the next space character and must be
/// non-empty. On success returns the identifier and the rest of the
/// input, which still begins with the terminating space.
pub open spec fn spec_take_ident(s: Seq<char>) -> Option<(Seq<char>, Seq<char>)> {
    match s.index_of_first(' ') {
        Some(i) => if i > 0 {
            Some((s.take(i), s.skip(i)))
        } else {
            None
        },
        None => None,
    }
}

proof fn lemma_ws_run_len_bound(s: Seq<char>)
    ensures
        ws_run_len(s) <= s.len(),
    decreases s.len(),
{
    if s.len() != 0 && is_inner_ws(s[0]) {
        lemma_ws_run_len_bound(s.skip(1));
    }
}

/// A forward scan that saw `i` whitespace characters and then either the
/// end of the input or a non-whitespace character has found the maximal
/// whitespace run.
proof fn lemma_ws_run_len_from_scan(s: Seq<char>, i: int)
    requires
        0 <= i <= s.len(),
        forall|j: int| 0 <= j < i ==> is_inner_ws(#[trigger] s[j]),
        i == s.len() || !is_inner_ws(s[i]),
    ensures
        ws_run_len(s) == i,
    decreases i,
{
    if i == 0 {
    } else {
        assert(is_inner_ws(s[0]));
        lemma_ws_run_len_from_scan(s.skip(1), i - 1);
    }
}

fn to_lower_char(c: char) -> (r: char)
    ensures
        r == lower_char(c),
{
    if 'A' <= c && c <= 'Z' {
        ((c as u8) + 32) as char
    } else {
        c
    }
}

/// Does `s` begin with `pat`, compared case-insensitively (ASCII)?
fn starts_with_ci(s: &str, pat: &str) -> (r: bool)
    ensures
        r == (s@.len() >= pat@.len() && eq_ignore_case(s@.take(pat@.len() as int), pat@)),
{
    let n = pat.unicode_len();
    let m = s.unicode_len();
    if m < n {
        return false;
    }
    let mut i: usize = 0;
    while i < n
        invariant
            i <= n,
            n == pat@.len(),
            m == s@.len(),
            n <= m,
            forall|j: int| 0 <= j < i ==> lower_char(#[trigger] s@[j]) == lower_char(pat@[j]),
        decreases n - i,
    {
        if to_lower_char(s.get_char(i)) != to_lower_char(pat.get_char(i)) {
            assert(s@.take(n as int)[i as int] == s@[i as int]);
            return false;
        }
        i += 1;
    }
    assert forall|j: int| 0 <= j < n implies lower_char(#[trigger] s@.take(n as int)[j])
        == lower_char(pat@[j]) by {
        assert(s@.take(n as int)[j] == s@[j]);
    }
    true
}

/// Does `s` begin with `pat`, compared exactly?
fn starts_with_lit(s: &str, pat: &str) -> (r: bool)
    ensures
        r == (s@.len() >= pat@.len() && s@.take(pat@.len() as int) == pat@),
{
    let n = pat.unicode_len();
    let m = s.unicode_len();
    if m < n {
        return false;
    }
    let mut i: usize = 0;
    while i < n
        invariant
            i <= n,
            n == pat@.len(),
            m == s@.len(),
            n <= m,
            forall|j: int| 0 <= j < i ==> #[trigger] s@[j] == pat@[j],
        decreases n - i,
    {
        if s.get_char(i) != pat.get_char(i) {
            assert(s@.take(n as int)[i as int] == s@[i as int]);
            return false;
        }
        i += 1;
    }
    assert(s@.take(n as int) =~= pat@);
    true
}

/// The index of the first space character of `s`, if any.
fn find_space(s: &str) -> (r: Option<usize>)
    ensures
        match r {
            Some(i) => s@.index_of_first(' ') == Some(i as int),
            None => s@.index_of_first(' ') is None,
        },
{
    let m = s.unicode_len();
    let mut i: usize = 0;
    while i < m
        invariant
            i <= m,
            m == s@.len(),
            forall|j: int| 0 <= j < i ==> #[trigger] s@[j] != ' ',
        decreases m - i,
    {
        if s.get_char(i) == ' ' {
            proof {
                s@.index_of_first_ensures(' ');
            }
            return Some(i);
        }
        i += 1;
    }
    proof {
        s@.index_of_first_ensures(' ');
    }
    None
}

/// Recognize a non-empty identifier terminated by a space; the space is
/// not consumed.
fn take_ident<'a>(s: &'a str) -> (r: Option<(&'a str, &'a str)>)
    ensures
        match spec_take_ident(s@) {
            Some(p) => r matches Some(q) && q.0@ == p.0 && q.1@ == p.1,
            None => r is None,
        },
{
    let m = s.unicode_len();
    match find_space(s) {
        Some(i) => {
            if i == 0 {
                None
            } else {
                proof {
                    s@.index_of_first_ensures(' ');
                }
                let name = s.substring_char(0, i);
                let rest = s.substring_char(i, m);
                assert(name@ =~= s@.take(i as int));
                assert(rest@ =~= s@.skip(i as int));
                Some((name, rest))
            }
        },
        None => None,
    }
}

/// Length of the whitespace run at the head of `s`.
fn ws_run(s: &str) -> (w: usize)
    ensures
        w == ws_run_len(s@),
{
    let m = s.unicode_len();
    let mut i: usize = 0;
    while i < m
        invariant
            i <= m,
            m == s@.len(),
            forall|j: int| 0 <= j < i ==> is_inner_ws(#[trigger] s@[j]),
        decreases m - i,
    {
        let c = s.get_char(i);
        if !(c == ' ' || c == '\t' || c == '\r' || c == '\n') {
            proof {
                lemma_ws_run_len_from_scan(s@, i as int);
            }
            return i;
        }
        i += 1;
    }
    proof {
        lemma_ws_run_len_from_scan(s@, m as int);
    }
    m
}

/// Meaning of the column production: `<identifier> <whitespace run>
/// ("Date" | "String")`. On success returns the column and the
/// unconsumed rest of the input. The two type alternatives are tried in
/// order; they share no prefix, so the order is not observable.
pub open spec fn spec_parse_col(s: Seq<char>) -> Option<(ColModel, Seq<char>)> {
    match spec_take_ident(s) {
        Some(p) => {
            let name = p.0;
            let rest = p.1;
            let w = ws_run_len(rest);
            if w == 0 {
                None
            } else {
                let after = rest.skip(w as int);
                if after.len() >= 4 && after.take(4) == "Date"@ {
                    Some((ColModel { name, col_type: "Date"@ }, after.skip(4)))
                } else if after.len() >= 6 && after.take(6) == "String"@ {
                    Some((ColModel { name, col_type: "String"@ }, after.skip(6)))
                } else {
                    None
                }
            }
        },
        None => None,
    }
}

/// A successful column parse yields a well-formed column with a non-empty
/// name, and consumes at least one character.
proof fn lemma_spec_parse_col_props(s: Seq<char>)
    ensures
        spec_parse_col(s) matches Some(cr) ==> cr.0.wf() && cr.0.name.len() > 0 && cr.1.len()
            < s.len(),
{
    if spec_parse_col(s) is Some {
        s.index_of_first_ensures(' ');
        let p = spec_take_ident(s).unwrap();
        lemma_ws_run_len_bound(p.1);
    }
}

/// Meaning of `( ", " <column>)*`: the columns parsed after the first
/// one, with the unconsumed rest. When the separator or the column after
/// it fails to parse, the separator is not consumed.
pub open spec fn spec_parse_cols_tail(s: Seq<char>) -> (Seq<ColModel>, Seq<char>)
    decreases s.len(),
{
    if s.len() >= 2 && s.take(2) == ", "@ {
        match spec_parse_col(s.skip(2)) {
            Some(cr) => {
                if cr.1.len() < s.len() {
                    let rec = spec_parse_cols_tail(cr.1);
                    (seq![cr.0] + rec.0, rec.1)
                } else {
                    (Seq::<ColModel>::empty(), s)
                }
            },
            None => (Seq::<ColModel>::empty(), s),
        }
    } else {
        (Seq::<ColModel>::empty(), s)
    }
}

/// Meaning of `<column>( ", " <column>)*` (possibly empty): when even the
/// first column fails to parse, the list is empty and nothing is
/// consumed.
pub open spec fn spec_parse_cols(s: Seq<char>) -> (Seq<ColModel>, Seq<char>) {
    match spec_parse_col(s) {
        Some(cr) => {
            let rec = spec_parse_cols_tail(cr.1);
            (seq![cr.0] + rec.0, rec.1)
        },
        None => (Seq::<ColModel>::empty(), s),
    }
}

proof fn lemma_spec_parse_cols_tail_wf(s: Seq<char>)
    ensures
        forall|i: int|
            0 <= i < spec_parse_cols_tail(s).0.len() ==> (#[trigger] spec_parse_cols_tail(
                s,
            ).0[i]).wf(),
    decreases s.len(),
{
    if s.len() >= 2 && s.take(2) == ", "@ {
        lemma_spec_parse_col_props(s.skip(2));
        match spec_parse_col(s.skip(2)) {
            Some(cr) => {
                if cr.1.len() < s.len() {
                    lemma_spec_parse_cols_tail_wf(cr.1);
                    let rec = spec_parse_cols_tail(cr.1);
                    assert(spec_parse_cols_tail(s).0 == seq![cr.0] + rec.0);
                    assert forall|i: int|
                        0 <= i < spec_parse_cols_tail(s).0.len() implies (
                    #[trigger] spec_parse_cols_tail(s).0[i]).wf() by {
                        if i == 0 {
                            assert(spec_parse_cols_tail(s).0[i] == cr.0);
                        } else {
                            assert(spec_parse_cols_tail(s).0[i] == rec.0[i - 1]);
                        }
                    }
                }
            },
            None => {},
        }
    }
}

proof fn lemma_spec_parse_cols_wf(s: Seq<char>)
    ensures
        forall|i: int|
            0 <= i < spec_parse_cols(s).0.len() ==> (#[trigger] spec_parse_cols(s).0[i]).wf(),
{
    lemma_spec_parse_col_props(s);
    match spec_parse_col(s) {
        Some(cr) => {
            lemma_spec_parse_cols_tail_wf(cr.1);
        },
        None => {},
    }
}

/// Meaning of the whole statement, per the grammar at the top of this
/// module. On success returns the table and the unconsumed trailing
/// input, which is not rejected.
pub open spec fn spec_parse_table(s: Seq<char>) -> Option<(TableModel, Seq<char>)> {
    if s.len() >= 13 && eq_ignore_case(s.take(13), "create table "@) {
        let s1 = s.skip(13);
        let flagged = s1.len() >= 13 && eq_ignore_case(s1.take(13), "if not exists"@);
        let s2 = if flagged {
            s1.skip(13)
        } else {
            s1
        };
        match spec_take_ident(s2) {
            Some(p) => {
                let name = p.0;
                let s3 = p.1;
                if s3.len() >= 2 && s3[0] == ' ' && s3[1] == '(' {
                    let listed = spec_parse_cols(s3.skip(2));
                    let cols = listed.0;
                    let s5 = listed.1;
                    if s5.len() >= 1 && s5[0] == ')' {
                        Some(
                            (
                                TableModel { name, columns: cols, if_not_exists: flagged },
                                s5.skip(1),
                            ),
                        )
                    } else {
                        None
                    }
                } else {
                    None
                }
            },
            None => None,
        }
    } else {
        None
    }
}

/// Every table the parser accepts is well formed: its name is non-empty
/// and every column type is one of the recognized alternatives.
pub proof fn lemma_parse_table_wf(s: Seq<char>)
    ensures
        spec_parse_table(s) matches Some(tr) ==> tr.0.wf(),
{
    if spec_parse_table(s) is Some {
        let s1 = s.skip(13);
        let flagged = s1.len() >= 13 && eq_ignore_case(s1.take(13), "if not exists"@);
        let s2 = if flagged {
            s1.skip(13)
        } else {
            s1
        };
        s2.index_of_first_ensures(' ');
        let p = spec_take_ident(s2).unwrap();
        lemma_spec_parse_cols_wf(p.1.skip(2));
    }
}

/// Recognize one column. Returns the unconsumed rest of the input with
/// the column, exactly as [`spec_parse_col`] describes, and fails
/// exactly on the inputs that [`spec_parse_col`] rejects.
pub fn parse_col<'a>(input: &'a str) -> (r: Result<(&'a str, Col), ParseError>)
    ensures
        match spec_parse_col(input@) {
            Some(cr) => r matches Ok(p) && p.0@ == cr.1 && p.1@ == cr.0,
            None => r is Err,
        },
{
    match take_ident(input) {
        Some((name, rest)) => {
            let w = ws_run(rest);
            if w == 0 {
                return Err(ParseError { rest: input.to_owned() });
            }
            proof {
                lemma_ws_run_len_bound(rest@);
            }
            let rest_len = rest.unicode_len();
            let after = rest.substring_char(w, rest_len);
            proof {
                assert(after@ =~= rest@.skip(w as int));
                reveal_strlit("Date");
                reveal_strlit("String");
            }
            let after_len = after.unicode_len();
            if starts_with_lit(after, "Date") {
                let rem = after.substring_char(4, after_len);
                let col = Col { name: name.to_owned(), col_type: String::from_str("Date") };
                proof {
                    assert(rem@ =~= after@.skip(4));
                }
                Ok((rem, col))
            } else if starts_with_lit(after, "String") {
                let rem = after.substring_char(6, after_len);
                let col = Col { name: name.to_owned(), col_type: String::from_str("String") };
                proof {
                    assert(rem@ =~= after@.skip(6));
                }
                Ok((rem, col))
            } else {
                Err(ParseError { rest: input.to_owned() })
            }
        },
        None => Err(ParseError { rest: input.to_owned() }),
    }
}

/// Recognize `( ", " <column>)*` after a first column has been parsed.
fn parse_cols_tail<'a>(s: &'a str) -> (r: (Vec<Col>, &'a str))
    ensures
        r.1@ == spec_parse_cols_tail(s@).1,
        r.0@.len() == spec_parse_cols_tail(s@).0.len(),
        forall|i: int|
            0 <= i < r.0@.len() ==> (#[trigger] r.0@[i])@ == spec_parse_cols_tail(s@).0[i],
    decreases s@.len(),
{
    proof {
        reveal_strlit(", ");
    }
    if starts_with_lit(s, ", ") {
        let m = s.unicode_len();
        let s2 = s.substring_char(2, m);
        proof {
            assert(s2@ =~= s@.skip(2));
        }
        match parse_col(s2) {
            Ok((rest, col)) => {
                proof {
                    lemma_spec_parse_col_props(s2@);
                }
                let recursed = parse_cols_tail(rest);
                let mut cols = recursed.0;
                cols.insert(0, col);
                proof {
                    let cr = spec_parse_col(s@.skip(2)).unwrap();
                    assert(cols@[0]@ == cr.0);
                }
                (cols, recursed.1)
            },
            Err(_) => (Vec::new(), s),
        }
    } else {
        (Vec::new(), s)
    }
}

/// Recognize `<column>( ", " <column>)*`, possibly empty. Never fails:
/// when the first column does not parse, the list is empty and nothing is
/// consumed.
fn parse_cols<'a>(s: &'a str) -> (r: (Vec<Col>, &'a str))
    ensures
        r.1@ == spec_parse_cols(s@).1,
        r.0@.len() == spec_parse_cols(s@).0.len(),
        forall|i: int| 0 <= i < r.0@.len() ==> (#[trigger] r.0@[i])@ == spec_parse_cols(s@).0[i],
{
    match parse_col(s) {
        Ok((rest, col)) => {
            let recursed = parse_cols_tail(rest);
            let mut cols = recursed.0;
            cols.insert(0, col);
            proof {
                let cr = spec_parse_col(s@).unwrap();
                assert(cols@[0]@ == cr.0);
            }
            (cols, recursed.1)
        },
        Err(_) => (Vec::new(), s),
    }
}

/// Parse a full `CREATE TABLE` statement. Succeeds with the table and the
/// unconsumed trailing input exactly when [`spec_parse_table`] accepts
/// the input; any deviation from the grammar yields a parse error and no
/// table.
pub fn parse_table<'a>(input: &'a str) -> (r: Result<(&'a str, Table), ParseError>)
    ensures
        match spec_parse_table(input@) {
            Some(tr) => r matches Ok(p) && p.0@ == tr.1 && p.1@ == tr.0,
            None => r is Err,
        },
{
    proof {
        reveal_strlit("create table ");
        reveal_strlit("if not exists");
    }
    if !starts_with_ci(input, "create table ") {
        return Err(ParseError { rest: input.to_owned() });
    }
    let m = input.unicode_len();
    let s1 = input.substring_char(13, m);
    proof {
        assert(s1@ =~= input@.skip(13));
    }
    let flagged = starts_with_ci(s1, "if not exists");
    let s2 = if flagged {
        let m1 = s1.unicode_len();
        let skipped = s1.substring_char(13, m1);
        proof {
            assert(skipped@ =~= s1@.skip(13));
        }
        skipped
    } else {
        s1
    };
    match take_ident(s2) {
        Some((name, s3)) => {
            let m3 = s3.unicode_len();
            if m3 < 2 {
                return Err(ParseError { rest: input.to_owned() });
            }
            if s3.get_char(0) != ' ' || s3.get_char(1) != '(' {
                return Err(ParseError { rest: input.to_owned() });
            }
            let s4 = s3.substring_char(2, m3);
            proof {
                assert(s4@ =~= s3@.skip(2));
            }
            let listed = parse_cols(s4);
            let cols = listed.0;
            let s5 = listed.1;
            let m5 = s5.unicode_len();
            if m5 < 1 {
                return Err(ParseError { rest: input.to_owned() });
            }
            if s5.get_char(0) != ')' {
                return Err(ParseError { rest: input.to_owned() });
            }
            let rem = s5.substring_char(1, m5);
            let table = Table { name: name.to_owned(), columns: cols, if_not_exists: flagged };
            proof {
                assert(rem@ =~= s5@.skip(1));
                let tr = spec_parse_table(input@).unwrap();
                assert(table@.columns =~= tr.0.columns);
                assert(table@ =~= tr.0);
            }
            Ok((rem, table))
        },
        None => Err(ParseError { rest: input.to_owned() }),
    }
}

} // verus!
