//! The lint rules and the lint runner.
//!
//! A rule is a pure mapping from a parsed table to an optional
//! diagnostic; a rule never mutates the table and never fails. The
//! runner invokes the fixed ordered rule set, presents each diagnostic
//! under a banner, and presents a single success line when no rule
//! fired.

use vstd::prelude::*;
use vstd::string::StringExecFns;
use crate::ast::{ColModel, Table, TableModel};

verus! {

broadcast use vstd::slice::axiom_spec_len;

/// Tables whose name is shorter than this many bytes draw a diagnostic.
pub const MIN_LENGTH: usize = 5;

/// The decimal digit character for `d` (`d < 10`).
pub open spec fn dec_digit(d: nat) -> char
    recommends
        d < 10,
{
    ((48 + d) as char)
}

/// The decimal rendering of `n`, most significant digit first, without
/// leading zeros (a single `'0'` for zero).
pub open spec fn dec_rep(n: nat) -> Seq<char>
    decreases n,
{
    if n < 10 {
        seq![dec_digit(n)]
    } else {
        dec_rep(n / 10).push(dec_digit(n % 10))
    }
}

fn digit_str(d: usize) -> (s: &'static str)
    requires
        d < 10,
    ensures
        s@ == seq![dec_digit(d as nat)],
{
    if d == 0 {
        proof {
            reveal_strlit("0");
        }
        "0"
    } else if d == 1 {
        proof {
            reveal_strlit("1");
        }
        "1"
    } else if d == 2 {
        proof {
            reveal_strlit("2");
        }
        "2"
    } else if d == 3 {
        proof {
            reveal_strlit("3");
        }
        "3"
    } else if d == 4 {
        proof {
            reveal_strlit("4");
        }
        "4"
    } else if d == 5 {
        proof {
            reveal_strlit("5");
        }
        "5"
    } else if d == 6 {
        proof {
            reveal_strlit("6");
        }
        "6"
    } else if d == 7 {
        proof {
            reveal_strlit("7");
        }
        "7"
    } else if d == 8 {
        proof {
            reveal_strlit("8");
        }
        "8"
    } else {
        proof {
            reveal_strlit("9");
        }
        "9"
    }
}

/// Render `n` in decimal.
fn usize_to_string(n: usize) -> (s: String)
    ensures
        s@ == dec_rep(n as nat),
    decreases n,
{
    if n < 10 {
        String::from_str(digit_str(n))
    } else {
        let q = n / 10;
        let d = n % 10;
        let mut s = usize_to_string(q);
        s.append(digit_str(d));
        proof {
            assert(dec_rep(n as nat) =~= dec_rep(q as nat) + seq![dec_digit(d as nat)]);
        }
        s
    }
}

/// How many of the columns carry this name.
pub open spec fn count_name(cols: Seq<ColModel>, name: Seq<char>) -> nat
    decreases cols.len(),
{
    if cols.len() == 0 {
        0
    } else {
        (count_name(cols.drop_last(), name) + if cols.last().name == name {
            1nat
        } else {
            0nat
        }) as nat
    }
}

/// No earlier column carries the same name as the one at `i`.
pub open spec fn is_first_occurrence(cols: Seq<ColModel>, i: int) -> bool {
    forall|j: int| 0 <= j < i ==> (#[trigger] cols[j]).name != cols[i].name
}

/// One line of the duplicate-column diagnostic.
pub open spec fn dup_line(name: Seq<char>, count: nat) -> Seq<char> {
    "Duplicated column "@ + name + " was encountered "@ + dec_rep(count) + " times.\n"@
}

/// The line contributed by the column at `k`: a duplicate line when `k`
/// is the first occurrence of a name carried by more than one column,
/// and nothing otherwise.
pub open spec fn line_at(cols: Seq<ColModel>, k: int) -> Seq<char> {
    if is_first_occurrence(cols, k) && count_name(cols, cols[k].name) > 1 {
        dup_line(cols[k].name, count_name(cols, cols[k].name))
    } else {
        Seq::<char>::empty()
    }
}

/// The duplicate lines contributed by the columns before `i`, in
/// first-occurrence order.
pub open spec fn dup_lines_upto(cols: Seq<ColModel>, i: int) -> Seq<char>
    decreases i,
{
    if i <= 0 {
        Seq::<char>::empty()
    } else {
        dup_lines_upto(cols, i - 1) + line_at(cols, i - 1)
    }
}

/// The duplicate-column rule: one line per duplicated name, in order of
/// first occurrence, or no diagnostic when every name is distinct.
pub open spec fn r1_diag(t: TableModel) -> Option<Seq<char>> {
    let lines = dup_lines_upto(t.columns, t.columns.len() as int);
    if lines.len() == 0 {
        None
    } else {
        Some(lines)
    }
}

/// The short-name rule: a diagnostic exactly when the table name is
/// shorter than [`MIN_LENGTH`] bytes.
pub open spec fn r2_diag(t: TableModel) -> Option<Seq<char>> {
    if vstd::utf8::encode_utf8(t.name).len() < MIN_LENGTH {
        Some(
            "Your table name '"@ + t.name
                + "' is too short. We recommend at least 5 characters."@,
        )
    } else {
        None
    }
}

/// Report duplicated column names: for each name carried by more than
/// one column, one line of the form `Duplicated column <name> was
/// encountered <count> times.`, in order of first occurrence. Emits no
/// diagnostic when all column names are pairwise distinct.
pub fn check_duplicate_col_names(t: &Table) -> (r: Option<String>)
    ensures
        match r {
            Some(s) => r1_diag(t@) == Some(s@),
            None => r1_diag(t@) is None,
        },
{
    let ghost cols = t@.columns;
    let n = t.columns.len();
    let mut errors = String::new();
    let mut i: usize = 0;
    while i < n
        invariant
            n == t.columns.len(),
            cols == t@.columns,
            i <= n,
            errors@ == dup_lines_upto(cols, i as int),
        decreases n - i,
    {
        let mut first = true;
        let mut j: usize = 0;
        while j < i
            invariant
                i < n,
                n == t.columns.len(),
                cols == t@.columns,
                j <= i,
                first == (forall|k: int|
                    0 <= k < j ==> (#[trigger] cols[k]).name != cols[i as int].name),
            decreases i - j,
        {
            let same = t.columns[j].name == t.columns[i].name;
            if same {
                first = false;
            }
            proof {
                assert(cols[j as int] == t.columns@[j as int]@);
                assert(cols[i as int] == t.columns@[i as int]@);
                assert(same == (cols[j as int].name == cols[i as int].name));
            }
            j += 1;
        }
        if first {
            let mut count: usize = 0;
            let mut k: usize = 0;
            while k < n
                invariant
                    i < n,
                    n == t.columns.len(),
                    cols == t@.columns,
                    k <= n,
                    count <= k,
                    count == count_name(cols.take(k as int), cols[i as int].name),
                decreases n - k,
            {
                if t.columns[k].name == t.columns[i].name {
                    count += 1;
                }
                proof {
                    assert(cols.take(k + 1).drop_last() =~= cols.take(k as int));
                    assert(cols.take(k + 1).last() == cols[k as int]);
                }
                k += 1;
            }
            proof {
                assert(cols.take(n as int) =~= cols);
            }
            if count > 1 {
                errors.append("Duplicated column ");
                errors.append(t.columns[i].name.as_str());
                errors.append(" was encountered ");
                let rendered = usize_to_string(count);
                errors.append(rendered.as_str());
                errors.append(" times.\n");
            }
        }
        proof {
            assert(errors@ =~= dup_lines_upto(cols, i + 1));
        }
        i += 1;
    }
    if errors.as_str().is_empty() {
        None
    } else {
        Some(errors)
    }
}

/// Report a table name shorter than [`MIN_LENGTH`] bytes; emits no
/// diagnostic otherwise. The measure is byte length, not character
/// count.
pub fn check_table_name_is_not_short(t: &Table) -> (r: Option<String>)
    ensures
        match r {
            Some(s) => r2_diag(t@) == Some(s@),
            None => r2_diag(t@) is None,
        },
{
    let byte_len = t.name.as_str().as_bytes().len();
    if byte_len < MIN_LENGTH {
        let mut msg = String::from_str("Your table name '");
        msg.append(t.name.as_str());
        msg.append("' is too short. We recommend at least 5 characters.");
        proof {
            assert(msg@ =~= "Your table name '"@ + t@.name
                + "' is too short. We recommend at least 5 characters."@);
        }
        Some(msg)
    } else {
        None
    }
}

/// The banner under which the runner presents one diagnostic. Printing
/// the block as a line yields the banner line, a blank line, and the
/// diagnostic text.
pub open spec fn banner_block(diag: Seq<char>) -> Seq<char> {
    "encountered error:\n\n"@ + diag
}

/// The line presented when no rule fired.
pub open spec fn congrats_line() -> Seq<char> {
    "Congrats! Your table looks fine"@
}

/// What the runner presents for a table: one banner block per rule that
/// produced a diagnostic, in rule order, or the single success line when
/// none did.
pub open spec fn spec_lint_output(t: TableModel) -> Seq<Seq<char>> {
    let blocks = (match r1_diag(t) {
        Some(d) => seq![banner_block(d)],
        None => Seq::<Seq<char>>::empty(),
    }) + (match r2_diag(t) {
        Some(d) => seq![banner_block(d)],
        None => Seq::<Seq<char>>::empty(),
    });
    if blocks.len() == 0 {
        seq![congrats_line()]
    } else {
        blocks
    }
}

/// Run the fixed rule set over a table and return what is to be
/// presented, one block per element, in order.
pub fn run_lints(t: &Table) -> (out: Vec<String>)
    ensures
        out@.len() == spec_lint_output(t@).len(),
        forall|i: int| 0 <= i < out@.len() ==> (#[trigger] out@[i])@ == spec_lint_output(t@)[i],
{
    let mut out: Vec<String> = Vec::new();
    let mut dirty = false;
    match check_duplicate_col_names(t) {
        Some(diag) => {
            let mut block = String::from_str("encountered error:\n\n");
            block.append(diag.as_str());
            out.push(block);
            dirty = true;
        },
        None => {},
    }
    match check_table_name_is_not_short(t) {
        Some(diag) => {
            let mut block = String::from_str("encountered error:\n\n");
            block.append(diag.as_str());
            out.push(block);
            dirty = true;
        },
        None => {},
    }
    if !dirty {
        out.push(String::from_str("Congrats! Your table looks fine"));
    }
    out
}

proof fn lemma_count_name_exists(cols: Seq<ColModel>, name: Seq<char>)
    ensures
        count_name(cols, name) >= 1 ==> exists|i: int|
            0 <= i < cols.len() && (#[trigger] cols[i]).name == name,
    decreases cols.len(),
{
    if cols.len() > 0 {
        lemma_count_name_exists(cols.drop_last(), name);
        if count_name(cols, name) >= 1 {
            if cols.last().name == name {
                assert(cols[cols.len() - 1].name == name);
            } else {
                let i = choose|i: int|
                    0 <= i < cols.drop_last().len() && (#[trigger] cols.drop_last()[i]).name
                        == name;
                assert(cols[i].name == name);
            }
        }
    }
}

proof fn lemma_count_name_distinct(cols: Seq<ColModel>, name: Seq<char>)
    requires
        forall|i: int, j: int|
            0 <= i < j < cols.len() ==> #[trigger] cols[i].name != #[trigger] cols[j].name,
    ensures
        count_name(cols, name) <= 1,
    decreases cols.len(),
{
    if cols.len() > 0 {
        let prefix = cols.drop_last();
        assert(forall|i: int| 0 <= i < prefix.len() ==> #[trigger] prefix[i] == cols[i]);
        lemma_count_name_distinct(prefix, name);
        if cols.last().name == name && count_name(prefix, name) >= 1 {
            lemma_count_name_exists(prefix, name);
            let i = choose|i: int| 0 <= i < prefix.len() && (#[trigger] prefix[i]).name == name;
            assert(cols[i].name == cols[cols.len() - 1].name);
            assert(false);
        }
    }
}

proof fn lemma_dup_lines_upto_empty(cols: Seq<ColModel>, i: int)
    requires
        forall|k: int| 0 <= k < i ==> #[trigger] line_at(cols, k) == Seq::<char>::empty(),
    ensures
        dup_lines_upto(cols, i).len() == 0,
    decreases i,
{
    if i > 0 {
        lemma_dup_lines_upto_empty(cols, i - 1);
    }
}

/// For every table with all column names pairwise distinct, the
/// duplicate-column rule emits no diagnostic.
pub proof fn lemma_distinct_cols_r1_clean(t: TableModel)
    requires
        forall|i: int, j: int|
            0 <= i < j < t.columns.len() ==> #[trigger] t.columns[i].name
                != #[trigger] t.columns[j].name,
    ensures
        r1_diag(t) is None,
{
    assert forall|k: int| 0 <= k < t.columns.len() implies #[trigger] line_at(t.columns, k)
        == Seq::<char>::empty() by {
        lemma_count_name_distinct(t.columns, t.columns[k].name);
    }
    lemma_dup_lines_upto_empty(t.columns, t.columns.len() as int);
}

/// For every table whose name is at least [`MIN_LENGTH`] bytes long, the
/// short-name rule emits no diagnostic.
pub proof fn lemma_long_name_r2_clean(t: TableModel)
    requires
        vstd::utf8::encode_utf8(t.name).len() >= MIN_LENGTH,
    ensures
        r2_diag(t) is None,
{
}

/// The duplicate-column rule is pure: any two results that meet its
/// contract on the same table are equal.
pub proof fn lemma_r1_pure(t: TableModel, first: Option<Seq<char>>, second: Option<Seq<char>>)
    requires
        first == r1_diag(t),
        second == r1_diag(t),
    ensures
        first == second,
{
}

/// The short-name rule is pure: any two results that meet its contract
/// on the same table are equal.
pub proof fn lemma_r2_pure(t: TableModel, first: Option<Seq<char>>, second: Option<Seq<char>>)
    requires
        first == r2_diag(t),
        second == r2_diag(t),
    ensures
        first == second,
{
}

/// The runner presents exactly the success line when no rule produced a
/// diagnostic, and no success line at all when any rule did.
pub proof fn lemma_runner_congrats(t: TableModel)
    ensures
        (r1_diag(t) is None && r2_diag(t) is None) ==> spec_lint_output(t) =~= seq![
            congrats_line(),
        ],
        (r1_diag(t) is Some || r2_diag(t) is Some) ==> !spec_lint_output(t).contains(
            congrats_line(),
        ),
{
    reveal_strlit("encountered error:\n\n");
    reveal_strlit("Congrats! Your table looks fine");
    if r1_diag(t) is Some || r2_diag(t) is Some {
        let out = spec_lint_output(t);
        assert forall|i: int| 0 <= i < out.len() implies #[trigger] out[i] != congrats_line() by {
            match r1_diag(t) {
                Some(d1) => {
                    match r2_diag(t) {
                        Some(d2) => {
                            assert(out[i] == banner_block(d1) || out[i] == banner_block(d2));
                        },
                        None => {
                            assert(out[i] == banner_block(d1));
                        },
                    }
                },
                None => {
                    let d2 = r2_diag(t).unwrap();
                    assert(out[i] == banner_block(d2));
                },
            }
            assert(congrats_line()[0] == 'C');
        }
    }
}

} // verus!
