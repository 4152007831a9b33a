//! Display widths in terminal columns.
use unicode_width::{UnicodeWidthChar, UnicodeWidthStr};
use vstd::prelude::*;

verus! {

/// The displayed width of a character, `None` for a control character.
pub uninterp spec fn unicode_char_width(c: char) -> Option<usize>;

/// The displayed width of a text.
pub uninterp spec fn unicode_text_width(s: Seq<char>) -> usize;

/// `UnicodeWidthChar::width` looks the character up in a fixed table.
#[verifier::external_body]
fn lookup_char_width(c: char) -> (w: Option<usize>)
    ensures
        w == unicode_char_width(c),
{
    UnicodeWidthChar::width(c)
}

/// `UnicodeWidthStr::width` computes the columns of a text from its characters alone.
#[verifier::external_body]
pub(crate) fn text_width(s: &str) -> (w: usize)
    ensures
        w == unicode_text_width(s@),
{
    UnicodeWidthStr::width(s)
}

/// The columns that a character takes; a control character takes none.
pub open spec fn columns(c: char) -> nat {
    match unicode_char_width(c) {
        Some(w) => w as nat,
        None => 0,
    }
}

/// The columns that a character takes; a control character takes none.
pub fn char_width(value: char) -> (w: usize)
    ensures
        w == columns(value),
{
    match lookup_char_width(value) {
        Some(w) => w,
        None => 0,
    }
}

/// The sum of the columns of the characters of a text.
pub open spec fn columns_sum(s: Seq<char>) -> nat
    decreases s.len(),
{
    if s.len() == 0 {
        0
    } else {
        columns_sum(s.drop_last()) + columns(s.last())
    }
}

/// Where the longest tail of `s` begins that fits into `budget` columns.
pub open spec fn fitting_tail(s: Seq<char>, budget: int) -> nat
    decreases s.len(),
{
    if s.len() == 0 {
        0
    } else if columns(s.last()) > budget {
        s.len()
    } else {
        fitting_tail(s.drop_last(), budget - columns(s.last()))
    }
}

/// Where the longest stretch of `s` from `start` on ends that fits into `budget` columns.
pub open spec fn fitting_end(s: Seq<char>, start: int, budget: int) -> int
    decreases s.len() - start,
{
    if start < 0 || start >= s.len() || columns(s[start]) > budget {
        start
    } else {
        fitting_end(s, start + 1, budget - columns(s[start]))
    }
}

/// The columns of the tail that `fitting_tail` finds.
pub open spec fn fitting_tail_width(s: Seq<char>, budget: int) -> nat {
    columns_sum(s.skip(fitting_tail(s, budget) as int))
}

pub proof fn lemma_columns_sum_concat(a: Seq<char>, b: Seq<char>)
    ensures
        columns_sum(a + b) == columns_sum(a) + columns_sum(b),
    decreases b.len(),
{
    if b.len() == 0 {
        assert(a + b =~= a);
    } else {
        assert((a + b).drop_last() =~= a + b.drop_last());
        lemma_columns_sum_concat(a, b.drop_last());
    }
}

/// Where the longest tail of the first `to` characters begins that fits, and its columns.
pub fn viewport_start_before_text_cursor(v: &Vec<char>, to: usize, budget: usize) -> (r: (usize, usize))
    requires
        to <= v@.len(),
    ensures
        r.0 == fitting_tail(v@.take(to as int), budget as int),
        r.1 == fitting_tail_width(v@.take(to as int), budget as int),
        r.0 <= to,
        r.1 <= budget,
{
    let ghost s = v@.take(to as int);
    let mut start: usize = to;
    let mut used: usize = 0;
    proof {
        assert(s.skip(to as int) =~= Seq::<char>::empty());
        assert(s.take(to as int) =~= s);
    }
    while start > 0
        invariant_except_break
            start <= to <= v@.len(),
            s == v@.take(to as int),
            used <= budget,
            used == columns_sum(s.skip(start as int)),
            fitting_tail(s, budget as int) == fitting_tail(
                s.take(start as int),
                budget - used,
            ),
        ensures
            start <= to,
            used <= budget,
            used == columns_sum(s.skip(start as int)),
            start == fitting_tail(s, budget as int),
        decreases start,
    {
        let w: usize = char_width(v[start - 1]);
        proof {
            assert(s.take(start as int).last() == v@[start - 1]);
            assert(s.take(start as int).drop_last() =~= s.take(start - 1));
            assert(s.skip(start - 1) =~= seq![v@[start - 1]] + s.skip(start as int));
            lemma_columns_sum_concat(seq![v@[start - 1]], s.skip(start as int));
            assert(columns_sum(seq![v@[start - 1]]) == columns(v@[start - 1])) by {
                assert(seq![v@[start - 1]].drop_last() =~= Seq::<char>::empty());
                reveal_with_fuel(columns_sum, 2);
            }
        }
        if w > budget - used {
            break;
        }
        used += w;
        start -= 1;
    }
    (start, used)
}

/// Where the longest stretch from `start` on ends that fits into `budget` columns.
pub fn visible_text_end(v: &Vec<char>, start: usize, budget: usize) -> (end: usize)
    requires
        start <= v@.len(),
    ensures
        end == fitting_end(v@, start as int, budget as int),
        start <= end <= v@.len(),
{
    let mut end: usize = start;
    let mut left: usize = budget;
    while end < v.len()
        invariant_except_break
            start <= end <= v@.len(),
            fitting_end(v@, start as int, budget as int) == fitting_end(
                v@,
                end as int,
                left as int,
            ),
        ensures
            start <= end <= v@.len(),
            end == fitting_end(v@, start as int, budget as int),
        decreases v@.len() - end,
    {
        let w: usize = char_width(v[end]);
        if w > left {
            break;
        }
        left -= w;
        end += 1;
    }
    end
}

/// What fits from a place on is the longest stretch that does: its columns keep to the budget,
/// and with the next character they would not.
pub proof fn the_longest_stretch_fits(s: Seq<char>, start: int, budget: int)
    requires
        0 <= start <= s.len(),
        0 <= budget,
    ensures
        ({
            let end = fitting_end(s, start, budget);
            &&& start <= end <= s.len()
            &&& columns_sum(s.subrange(start, end)) <= budget
            &&& end < s.len() ==> columns_sum(s.subrange(start, end + 1)) > budget
        }),
    decreases s.len() - start,
{
    let end = fitting_end(s, start, budget);
    if start < s.len() {
        let first = seq![s[start]];
        assert(columns_sum(first) == columns(s[start])) by {
            assert(first.drop_last() =~= Seq::<char>::empty());
            assert(columns_sum(first.drop_last()) == 0);
        }
        if columns(s[start]) <= budget {
            the_longest_stretch_fits(s, start + 1, budget - columns(s[start]));
            lemma_columns_sum_concat(first, s.subrange(start + 1, end));
            assert(first + s.subrange(start + 1, end) =~= s.subrange(start, end));
            if end < s.len() {
                lemma_columns_sum_concat(first, s.subrange(start + 1, end + 1));
                assert(first + s.subrange(start + 1, end + 1) =~= s.subrange(start, end + 1));
            }
        } else {
            assert(s.subrange(start, end) =~= Seq::<char>::empty());
            assert(s.subrange(start, start + 1) =~= first);
        }
    } else {
        assert(s.subrange(start, end) =~= Seq::<char>::empty());
    }
}

/// The tail that fits is the longest one that does.
pub proof fn the_longest_tail_fits(s: Seq<char>, budget: int)
    requires
        0 <= budget,
    ensures
        ({
            let from = fitting_tail(s, budget) as int;
            &&& 0 <= from <= s.len()
            &&& columns_sum(s.skip(from)) <= budget
            &&& from > 0 ==> columns_sum(s.skip(from - 1)) > budget
            &&& fitting_tail_width(s, budget) <= budget
        }),
    decreases s.len(),
{
    let from = fitting_tail(s, budget) as int;
    if s.len() > 0 {
        let init = s.drop_last();
        if columns(s.last()) <= budget {
            the_longest_tail_fits(init, budget - columns(s.last()));
            assert(s.skip(from).drop_last() =~= init.skip(from)) by {
                if from < s.len() {
                }
            }
            if from < s.len() {
                assert(s.skip(from).last() == s.last());
            } else {
                assert(from <= init.len());
            }
            if from > 0 {
                assert(s.skip(from - 1).drop_last() =~= init.skip(from - 1));
                assert(s.skip(from - 1).last() == s.last());
            }
        } else {
            assert(s.skip(from) =~= Seq::<char>::empty());
            assert(s.skip(from - 1) =~= seq![s.last()]);
            assert(s.skip(from - 1).drop_last() =~= Seq::<char>::empty());
            assert(columns_sum(Seq::<char>::empty()) == 0);
        }
    } else {
        assert(s.skip(from) =~= Seq::<char>::empty());
    }
}

} // verus!
