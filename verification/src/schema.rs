use vstd::prelude::*;

use crate::strutil::{lower_char, lower_char_exec, str_eq};

verus! {

/// One column of a store table: its name and its declared type.
pub struct ColumnDef {
    pub name: String,
    pub col_type: String,
}

/// The views of a vector of column definitions.
pub open spec fn cols_view(v: Seq<ColumnDef>) -> Seq<(Seq<char>, Seq<char>)> {
    v.map_values(|c: ColumnDef| (c.name@, c.col_type@))
}

/// A stored column type satisfies the expectation when the expected type,
/// folded to lower case, is a prefix of the stored type.
pub open spec fn type_matches(actual: Seq<char>, expected: Seq<char>) -> bool {
    actual.len() >= expected.len() && forall|i: int|
        0 <= i < expected.len() ==> actual[i] == lower_char(#[trigger] expected[i])
}

/// Index of the first column with this name; -1 when there is none.
pub open spec fn find_col(cols: Seq<(Seq<char>, Seq<char>)>, name: Seq<char>) -> int
    decreases cols.len(),
{
    if cols.len() == 0 {
        -1
    } else if cols[0].0 == name {
        0
    } else {
        let r = find_col(cols.drop_first(), name);
        if r < 0 {
            -1
        } else {
            r + 1
        }
    }
}

/// A table's columns are as expected: every stored column is declared, with
/// a type matching its declaration, and every declared column is stored.
pub open spec fn table_ok(
    expected: Seq<(Seq<char>, Seq<char>)>,
    actual: Seq<(Seq<char>, Seq<char>)>,
) -> bool {
    &&& forall|j: int|
        0 <= j < actual.len() ==> {
            let k = find_col(expected, (#[trigger] actual[j]).0);
            0 <= k && type_matches(actual[j].1, expected[k].1)
        }
    &&& forall|i: int| 0 <= i < expected.len() ==> find_col(actual, (#[trigger] expected[i]).0) >= 0
}

/// When no column before `i` carries the name and column `i` does, `i` is
/// the first match.
proof fn lemma_find_col_hit(cols: Seq<(Seq<char>, Seq<char>)>, name: Seq<char>, i: int)
    requires
        0 <= i < cols.len(),
        forall|k: int| 0 <= k < i ==> (#[trigger] cols[k]).0 != name,
        cols[i].0 == name,
    ensures
        find_col(cols, name) == i,
    decreases i,
{
    if i > 0 {
        let rest = cols.drop_first();
        assert(forall|k: int| 0 <= k < rest.len() ==> #[trigger] rest[k] == cols[k + 1]);
        lemma_find_col_hit(rest, name, i - 1);
    }
}

/// When no column carries the name, there is no match.
proof fn lemma_find_col_miss(cols: Seq<(Seq<char>, Seq<char>)>, name: Seq<char>)
    requires
        forall|k: int| 0 <= k < cols.len() ==> (#[trigger] cols[k]).0 != name,
    ensures
        find_col(cols, name) == -1,
    decreases cols.len(),
{
    if cols.len() > 0 {
        let rest = cols.drop_first();
        assert(forall|k: int| 0 <= k < rest.len() ==> #[trigger] rest[k] == cols[k + 1]);
        lemma_find_col_miss(rest, name);
    }
}

/// Index of the first column with this name.
fn find_col_idx(cols: &Vec<ColumnDef>, name: &str) -> (r: Option<usize>)
    ensures
        match r {
            Some(i) => 0 <= i < cols@.len() && find_col(cols_view(cols@), name@) == i as int
                && cols_view(cols@)[i as int].0 == name@,
            None => find_col(cols_view(cols@), name@) == -1,
        },
{
    let n = cols.len();
    let mut i: usize = 0;
    while i < n
        invariant
            n == cols@.len(),
            0 <= i <= n,
            forall|k: int| 0 <= k < i ==> (#[trigger] cols_view(cols@)[k]).0 != name@,
        decreases n - i,
    {
        proof {
            assert(cols_view(cols@)[i as int] == (cols@[i as int].name@, cols@[i as int].col_type@));
        }
        if str_eq(cols[i].name.as_str(), name) {
            proof {
                lemma_find_col_hit(cols_view(cols@), name@, i as int);
            }
            return Some(i);
        }
        i = i + 1;
    }
    proof {
        lemma_find_col_miss(cols_view(cols@), name@);
    }
    None
}

/// Whether the expected type, folded to lower case, prefixes the stored one.
fn type_matches_exec(actual: &str, expected: &str) -> (r: bool)
    ensures
        r == type_matches(actual@, expected@),
{
    let an = actual.unicode_len();
    let en = expected.unicode_len();
    if an < en {
        return false;
    }
    let mut i: usize = 0;
    while i < en
        invariant
            an == actual@.len(),
            en == expected@.len(),
            en <= an,
            0 <= i <= en,
            forall|k: int| 0 <= k < i ==> actual@[k] == lower_char(#[trigger] expected@[k]),
        decreases en - i,
    {
        if actual.get_char(i) != lower_char_exec(expected.get_char(i)) {
            return false;
        }
        i = i + 1;
    }
    true
}

/// Compares a table's stored columns against the declared set: every stored
/// column must be declared with a matching type, and no declared column may
/// be missing.
pub fn check_table_columns(expected: &Vec<ColumnDef>, actual: &Vec<ColumnDef>) -> (r: bool)
    ensures
        r == table_ok(cols_view(expected@), cols_view(actual@)),
{
    let n = actual.len();
    let mut j: usize = 0;
    while j < n
        invariant
            n == actual@.len(),
            0 <= j <= n,
            forall|k: int|
                0 <= k < j ==> {
                    let p = find_col(cols_view(expected@), (#[trigger] cols_view(actual@)[k]).0);
                    0 <= p && type_matches(cols_view(actual@)[k].1, cols_view(expected@)[p].1)
                },
        decreases n - j,
    {
        proof {
            assert(cols_view(actual@)[j as int] == (
                actual@[j as int].name@,
                actual@[j as int].col_type@,
            ));
        }
        match find_col_idx(expected, actual[j].name.as_str()) {
            None => {
                return false;
            },
            Some(k) => {
                if !type_matches_exec(actual[j].col_type.as_str(), expected[k].col_type.as_str()) {
                    proof {
                        assert(cols_view(expected@)[k as int] == (
                            expected@[k as int].name@,
                            expected@[k as int].col_type@,
                        ));
                    }
                    return false;
                }
                proof {
                    assert(cols_view(expected@)[k as int] == (
                        expected@[k as int].name@,
                        expected@[k as int].col_type@,
                    ));
                }
            },
        }
        j = j + 1;
    }
    let m = expected.len();
    let mut i: usize = 0;
    while i < m
        invariant
            m == expected@.len(),
            0 <= i <= m,
            forall|k: int|
                0 <= k < i ==> find_col(cols_view(actual@), (#[trigger] cols_view(expected@)[k]).0)
                    >= 0,
            forall|k: int|
                0 <= k < actual@.len() ==> {
                    let p = find_col(cols_view(expected@), (#[trigger] cols_view(actual@)[k]).0);
                    0 <= p && type_matches(cols_view(actual@)[k].1, cols_view(expected@)[p].1)
                },
        decreases m - i,
    {
        proof {
            assert(cols_view(expected@)[i as int] == (
                expected@[i as int].name@,
                expected@[i as int].col_type@,
            ));
        }
        if find_col_idx(actual, expected[i].name.as_str()).is_none() {
            return false;
        }
        i = i + 1;
    }
    true
}

} // verus!
