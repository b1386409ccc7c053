//! What cutting and trimming texts leaves of them.

use crate::text::{
    ascii_lower, ascii_upper, digits_value, is_white_space, joined, lower,
    parsed_unsigned, split, trim_end, trim_start, trimmed, upper,
};
use vstd::prelude::*;

verus! {

/// Splitting cuts at every separator and nowhere else: no piece holds one, and the
/// pieces with separators between them are the text.
pub proof fn splitting_cuts_at_separators(s: Seq<char>, sep: char)
    ensures
        split(s, sep).len() > 0,
        joined(split(s, sep), seq![sep]) == s,
        forall|i: int, j: int|
            0 <= i < split(s, sep).len() && 0 <= j < split(s, sep)[i].len()
                ==> #[trigger] split(s, sep)[i][j] != sep,
    decreases s.len(),
{
    let parts = split(s, sep);
    if s.len() == 0 {
        assert(parts =~= seq![Seq::<char>::empty()]);
        assert(joined(parts, seq![sep]) =~= s);
    } else {
        let front = s.drop_last();
        splitting_cuts_at_separators(front, sep);
        let before = split(front, sep);
        let c = s.last();
        if c == sep {
            assert(parts.drop_last() =~= before);
            assert(joined(parts, seq![sep]) =~= s);
            assert forall|i: int, j: int|
                0 <= i < parts.len() && 0 <= j < parts[i].len() implies #[trigger] parts[i][j]
                != sep by {
                if i < before.len() {
                    assert(parts[i] == before[i]);
                }
            }
        } else {
            assert(parts.drop_last() =~= before.drop_last());
            if before.len() == 1 {
                assert(joined(before, seq![sep]) == before[0]);
                assert(parts[0] == before[0].push(c));
                assert(s =~= front.push(c));
            } else {
                let head = joined(before.drop_last(), seq![sep]) + seq![sep];
                assert(joined(before, seq![sep]) == head + before.last());
                assert(parts.last() == before.last().push(c));
                assert(joined(parts, seq![sep]) == head + parts.last());
                assert(s =~= front.push(c));
                assert(head + before.last().push(c) =~= (head + before.last()).push(c));
            }
            assert forall|i: int, j: int|
                0 <= i < parts.len() && 0 <= j < parts[i].len() implies #[trigger] parts[i][j]
                != sep by {
                if i < before.len() - 1 {
                    assert(parts[i] == before[i]);
                } else {
                    let last = before[before.len() - 1];
                    assert(parts[i] == last.push(c));
                    if j < last.len() {
                        assert(before[before.len() - 1][j] != sep);
                    }
                }
            }
        }
    }
}

/// Trimming takes white space off both ends and nothing else.
pub proof fn trimming_takes_white_space_only(s: Seq<char>)
    ensures
        ({
            let t = trimmed(s);
            &&& t.len() > 0 ==> !is_white_space(t[0]) && !is_white_space(t[t.len() - 1])
            &&& exists|a: int|
                0 <= a <= a + t.len() <= s.len() && t == #[trigger] s.subrange(a, a + t.len()) && (
                forall|i: int|
                    0 <= i < s.len() && (i < a || i >= a + t.len()) ==> is_white_space(
                        #[trigger] s[i],
                    ))
        }),
{
    let m = trim_start(s);
    let t = trimmed(s);
    lemma_trim_start(s);
    lemma_trim_end(m);
    let a = s.len() - m.len();
    assert(t =~= s.subrange(a, a + t.len()));
    assert forall|i: int| 0 <= i < s.len() && (i < a || i >= a + t.len()) implies is_white_space(
        #[trigger] s[i],
    ) by {
        if i >= a {
            assert(m[i - a] == s[i]);
        }
    }
}

proof fn lemma_trim_start(s: Seq<char>)
    ensures
        ({
            let t = trim_start(s);
            &&& t.len() <= s.len()
            &&& t == s.skip(s.len() - t.len())
            &&& t.len() > 0 ==> !is_white_space(t[0])
            &&& forall|i: int| 0 <= i < s.len() - t.len() ==> is_white_space(#[trigger] s[i])
        }),
    decreases s.len(),
{
    let t = trim_start(s);
    if s.len() > 0 && is_white_space(s[0]) {
        let r = s.skip(1);
        lemma_trim_start(r);
        assert(t =~= s.skip(s.len() - t.len()));
        assert forall|i: int| 0 <= i < s.len() - t.len() implies is_white_space(#[trigger] s[i]) by {
            if i > 0 {
                assert(r[i - 1] == s[i]);
            }
        }
    } else {
        assert(t =~= s.skip(0));
    }
}

proof fn lemma_trim_end(s: Seq<char>)
    ensures
        ({
            let t = trim_end(s);
            &&& t.len() <= s.len()
            &&& t == s.take(t.len() as int)
            &&& t.len() > 0 ==> !is_white_space(t[t.len() - 1])
            &&& t.len() > 0 ==> t[0] == s[0]
            &&& forall|i: int| t.len() <= i < s.len() ==> is_white_space(#[trigger] s[i])
        }),
    decreases s.len(),
{
    let t = trim_end(s);
    if s.len() > 0 && is_white_space(s.last()) {
        let r = s.drop_last();
        lemma_trim_end(r);
        assert(t =~= s.take(t.len() as int));
        assert forall|i: int| t.len() <= i < s.len() implies is_white_space(#[trigger] s[i]) by {
            if i < r.len() {
                assert(r[i] == s[i]);
            }
        }
    } else {
        assert(t =~= s.take(s.len() as int));
    }
}

/// Changing case changes ASCII letters and nothing else.
pub proof fn case_changes_letters_only(s: Seq<char>, i: int)
    requires
        0 <= i < s.len(),
    ensures
        upper(s).len() == s.len(),
        lower(s).len() == s.len(),
        'a' <= s[i] && s[i] <= 'z' ==> upper(s)[i] as int == s[i] as int - 32,
        !('a' <= s[i] && s[i] <= 'z') ==> upper(s)[i] == s[i],
        'A' <= s[i] && s[i] <= 'Z' ==> lower(s)[i] as int == s[i] as int + 32,
        !('A' <= s[i] && s[i] <= 'Z') ==> lower(s)[i] == s[i],
{
    assert(upper(s)[i] == ascii_upper(s[i]));
    assert(lower(s)[i] == ascii_lower(s[i]));
}

/// A number is read only if every character of it is a digit, but for one plus
/// sign in front, and only if it is no more than allowed.
pub proof fn numbers_are_read_from_digits(s: Seq<char>, max: nat)
    ensures
        parsed_unsigned(s, max) matches Some(n) ==> {
            &&& n <= max
            &&& s.len() > 0
            &&& forall|i: int|
                0 < i < s.len() ==> '0' <= #[trigger] s[i] && s[i] <= '9'
            &&& s[0] == '+' || ('0' <= s[0] && s[0] <= '9')
        },
{
    if parsed_unsigned(s, max) is Some {
        if s.len() > 0 && s[0] == '+' {
            let d = s.skip(1);
            lemma_digits(d);
            assert forall|i: int| 0 < i < s.len() implies '0' <= #[trigger] s[i] && s[i] <= '9' by {
                assert(d[i - 1] == s[i]);
            }
        } else {
            lemma_digits(s);
        }
    }
}

proof fn lemma_digits(s: Seq<char>)
    requires
        digits_value(s) is Some,
    ensures
        forall|i: int| 0 <= i < s.len() ==> '0' <= #[trigger] s[i] && s[i] <= '9',
    decreases s.len(),
{
    if s.len() > 0 {
        let front = s.drop_last();
        lemma_digits(front);
        assert forall|i: int| 0 <= i < s.len() implies '0' <= #[trigger] s[i] && s[i] <= '9' by {
            if i < front.len() {
                assert(front[i] == s[i]);
            }
        }
    }
}

} // verus!
