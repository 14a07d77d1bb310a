//! Choosing the field separator of a tabular input from its header line.

use vstd::prelude::*;
use crate::seqfacts::lemma_filter_push;

verus! {

/// The predicate "is exactly the character `c`".
pub open spec fn is_char(c: char) -> spec_fn(char) -> bool {
    |x: char| x == c
}

/// How many times `c` occurs in `s`.
pub open spec fn char_count(s: Seq<char>, c: char) -> int {
    s.filter(is_char(c)).len() as int
}

/// Count the occurrences of a character in a text slice.
pub fn count_char(s: &str, c: char) -> (n: usize)
    ensures
        n == char_count(s@, c),
{
    let ghost pred = is_char(c);
    let len = s.unicode_len();
    let mut n: usize = 0;
    proof {
        assert(s@.take(0) =~= Seq::<char>::empty());
        assert(s@.take(0).filter(pred) =~= Seq::<char>::empty());
    }
    let mut i: usize = 0;
    while i < len
        invariant
            len == s@.len(),
            0 <= i <= len,
            pred == is_char(c),
            n == s@.take(i as int).filter(pred).len(),
            n <= i,
        decreases len - i,
    {
        proof {
            assert(s@.take(i + 1) =~= s@.take(i as int).push(s@[i as int]));
            lemma_filter_push(s@.take(i as int), s@[i as int], pred);
        }
        if s.get_char(i) == c {
            proof {
                assert(pred(s@[i as int]));
            }
            n += 1;
        }
        i += 1;
    }
    proof {
        assert(s@.take(s@.len() as int) =~= s@);
    }
    n
}

/// Choose the field separator from the header line's tab and comma
/// counts: the more frequent of the two wins, commas only when at least
/// one occurs, and tab is the default.
pub fn choose_separator(tab_count: usize, comma_count: usize) -> (sep: u8)
    ensures
        tab_count > comma_count ==> sep == 9,
        tab_count <= comma_count && comma_count > 0 ==> sep == 44,
        tab_count <= comma_count && comma_count == 0 ==> sep == 9,
{
    if tab_count > comma_count {
        9
    } else if comma_count > 0 {
        44
    } else {
        9
    }
}

} // verus!
