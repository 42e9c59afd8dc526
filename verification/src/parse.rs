use vstd::prelude::*;

verus! {

/// An ASCII decimal digit.
pub open spec fn is_digit(c: char) -> bool {
    '0' <= c && c <= '9'
}

/// Numeric value of one digit character.
pub open spec fn digit_val(c: char) -> int {
    c as int - '0' as int
}

/// Whether every character of the sequence is a decimal digit.
pub open spec fn all_digits(s: Seq<char>) -> bool {
    forall|i: int| 0 <= i < s.len() ==> is_digit(#[trigger] s[i])
}

/// The number a digit sequence denotes in base ten.
pub open spec fn dec_value(s: Seq<char>) -> int
    decreases s.len(),
{
    if s.len() == 0 {
        0
    } else {
        dec_value(s.drop_last()) * 10 + digit_val(s.last())
    }
}

/// A non-empty digit string whose value fits in a `u64`.
pub open spec fn is_dec_u64(s: Seq<char>) -> bool {
    s.len() >= 1 && all_digits(s) && dec_value(s) <= u64::MAX
}

/// The value of a digit string is never negative.
pub proof fn lemma_dec_value_nonneg(s: Seq<char>)
    requires
        all_digits(s),
    ensures
        dec_value(s) >= 0,
    decreases s.len(),
{
    if s.len() > 0 {
        let prefix = s.drop_last();
        assert(forall|i: int| 0 <= i < prefix.len() ==> prefix[i] == s[i]);
        lemma_dec_value_nonneg(prefix);
    }
}

/// Extending a digit string never shrinks its value.
pub proof fn lemma_dec_value_prefix_le(s: Seq<char>, j: int)
    requires
        all_digits(s),
        0 <= j <= s.len(),
    ensures
        dec_value(s.take(j)) <= dec_value(s),
    decreases s.len() - j,
{
    if j == s.len() {
        assert(s.take(j) =~= s);
    } else {
        assert(s.take(j + 1).drop_last() =~= s.take(j));
        assert(s.take(j + 1).last() == s[j]);
        assert(forall|i: int| 0 <= i < j + 1 ==> s.take(j + 1)[i] == s[i]);
        lemma_dec_value_nonneg(s.take(j + 1).drop_last());
        assert(dec_value(s.take(j)) <= dec_value(s.take(j + 1)));
        lemma_dec_value_prefix_le(s, j + 1);
    }
}

/// Parses a `u64` from a plain decimal string: every character a digit, at
/// least one digit, and the value within range; anything else is rejected.
pub fn parse_u64(s: &str) -> (r: Option<u64>)
    ensures
        match r {
            Some(v) => is_dec_u64(s@) && v as int == dec_value(s@),
            None => !is_dec_u64(s@),
        },
{
    let n = s.unicode_len();
    if n == 0 {
        return None;
    }
    let mut acc: u64 = 0;
    let mut j: usize = 0;
    while j < n
        invariant
            n == s@.len(),
            0 <= j <= n,
            all_digits(s@.take(j as int)),
            acc as int == dec_value(s@.take(j as int)),
        decreases n - j,
    {
        let c = s.get_char(j);
        if !('0' <= c && c <= '9') {
            return None;
        }
        let d: u64 = (c as u32 - '0' as u32) as u64;
        proof {
            assert(s@.take(j as int + 1).drop_last() =~= s@.take(j as int));
            assert(s@.take(j as int + 1).last() == s@[j as int]);
            assert(forall|i: int| 0 <= i < j ==> s@.take(j as int + 1)[i] == s@.take(j as int)[i]);
        }
        let big: u128 = (acc as u128) * 10 + (d as u128);
        if big > u64::MAX as u128 {
            proof {
                assert(all_digits(s@.take(j as int + 1)));
                assert(dec_value(s@.take(j as int + 1)) > u64::MAX);
                assert forall|i: int| 0 <= i < s@.len() implies is_digit(#[trigger] s@[i]) || !all_digits(
                    s@,
                ) by {}
                if all_digits(s@) {
                    lemma_dec_value_prefix_le(s@, j as int + 1);
                }
            }
            return None;
        }
        acc = big as u64;
        j = j + 1;
    }
    proof {
        assert(s@.take(n as int) =~= s@);
    }
    Some(acc)
}

/// First position of `c` in `s` at or after `from`; the length when absent.
pub open spec fn find_from(s: Seq<char>, c: char, from: int) -> int
    decreases s.len() - from,
{
    if from < 0 || from >= s.len() {
        s.len() as int
    } else if s[from] == c {
        from
    } else {
        find_from(s, c, from + 1)
    }
}

/// `find_from` lands on the character, or past every candidate position.
pub proof fn lemma_find_from(s: Seq<char>, c: char, from: int)
    requires
        0 <= from <= s.len(),
    ensures
        from <= find_from(s, c, from) <= s.len(),
        find_from(s, c, from) < s.len() ==> s[find_from(s, c, from)] == c,
        forall|i: int| from <= i < find_from(s, c, from) ==> s[i] != c,
    decreases s.len() - from,
{
    if from < s.len() && s[from] != c {
        lemma_find_from(s, c, from + 1);
    }
}

/// Positions named by a `Content-Range` header of the form `bytes A-B/...`:
/// `A` before the first dash, `B` between that dash and the first following
/// slash (or the end), both plain decimal `u64` numbers.
pub open spec fn range_spec(s: Seq<char>) -> Option<(int, int)> {
    let dash = find_from(s, '-', 6);
    let slash = find_from(s, '/', dash + 1);
    if s.len() >= 6 && s.subrange(0, 6) == "bytes "@ && dash < s.len() && is_dec_u64(
        s.subrange(6, dash),
    ) && is_dec_u64(s.subrange(dash + 1, slash)) {
        Some((dec_value(s.subrange(6, dash)), dec_value(s.subrange(dash + 1, slash))))
    } else {
        None
    }
}

/// Index of the first `c` at or after `from`, or the length when absent.
fn find_char(s: &str, c: char, from: usize) -> (r: usize)
    requires
        from <= s@.len(),
    ensures
        r as int == find_from(s@, c, from as int),
{
    let n = s.unicode_len();
    let mut j: usize = from;
    while j < n
        invariant
            n == s@.len(),
            from <= j <= n,
            find_from(s@, c, from as int) == find_from(s@, c, j as int),
        decreases n - j,
    {
        if s.get_char(j) == c {
            return j;
        }
        j = j + 1;
    }
    n
}

/// Parses a `Content-Range` header `bytes A-B/...` into `(A, B)`.
pub fn parse_content_range(s: &str) -> (r: Option<(u64, u64)>)
    ensures
        match r {
            Some((a, b)) => range_spec(s@) == Some((a as int, b as int)),
            None => range_spec(s@) is None,
        },
{
    proof {
        reveal_strlit("bytes ");
    }
    let n = s.unicode_len();
    if n < 6 {
        return None;
    }
    if !(s.get_char(0) == 'b' && s.get_char(1) == 'y' && s.get_char(2) == 't' && s.get_char(3)
        == 'e' && s.get_char(4) == 's' && s.get_char(5) == ' ') {
        proof {
            assert(s@.subrange(0, 6) != "bytes "@) by {
                if s@.subrange(0, 6) == "bytes "@ {
                    assert(s@.subrange(0, 6)[0] == 'b');
                    assert(s@.subrange(0, 6)[1] == 'y');
                    assert(s@.subrange(0, 6)[2] == 't');
                    assert(s@.subrange(0, 6)[3] == 'e');
                    assert(s@.subrange(0, 6)[4] == 's');
                    assert(s@.subrange(0, 6)[5] == ' ');
                }
            }
        }
        return None;
    }
    proof {
        assert(s@.subrange(0, 6) =~= "bytes "@);
    }
    let dash = find_char(s, '-', 6);
    proof {
        lemma_find_from(s@, '-', 6);
    }
    if dash == n {
        return None;
    }
    let slash = find_char(s, '/', dash + 1);
    proof {
        lemma_find_from(s@, '/', dash as int + 1);
    }
    let a_str = s.substring_char(6, dash);
    let b_str = s.substring_char(dash + 1, slash);
    let a = match parse_u64(a_str) {
        Some(v) => v,
        None => {
            return None;
        },
    };
    let b = match parse_u64(b_str) {
        Some(v) => v,
        None => {
            return None;
        },
    };
    Some((a, b))
}

} // verus!
