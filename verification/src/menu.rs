//! Moving through a list of choices.
use vstd::prelude::*;

verus! {

/// The choice below; the last one stays where it is.
pub open spec fn below(selected: int, count: int) -> int {
    if selected + 1 < count {
        selected + 1
    } else {
        last_of(count)
    }
}

/// The choice above; the first one stays where it is.
pub open spec fn above(selected: int) -> int {
    if selected > 0 {
        selected - 1
    } else {
        0
    }
}

/// The last choice, or the first place where there is none.
pub open spec fn last_of(count: int) -> int {
    if count > 0 {
        count - 1
    } else {
        0
    }
}

/// The choice nearest to `selected` that there is.
pub open spec fn within(selected: int, count: int) -> int {
    if selected < last_of(count) {
        selected
    } else {
        last_of(count)
    }
}

pub fn step_below(selected: usize, count: usize) -> (r: usize)
    ensures
        r == below(selected as int, count as int),
{
    if count > 0 && selected < count - 1 {
        selected + 1
    } else if count > 0 {
        count - 1
    } else {
        0
    }
}

pub fn step_above(selected: usize) -> (r: usize)
    ensures
        r == above(selected as int),
{
    if selected > 0 {
        selected - 1
    } else {
        0
    }
}

pub fn clamp_within(selected: usize, count: usize) -> (r: usize)
    ensures
        r == within(selected as int, count as int),
{
    let last: usize = if count > 0 {
        count - 1
    } else {
        0
    };
    if selected < last {
        selected
    } else {
        last
    }
}

/// A step down and one up lead back, where there is a choice below.
pub proof fn a_step_down_is_undone_by_a_step_up(selected: int, count: int)
    requires
        0 <= selected,
        selected + 1 < count,
    ensures
        above(below(selected, count)) == selected,
{
}

/// Moving through choices never leaves them.
pub proof fn steps_stay_among_the_choices(selected: int, count: int)
    requires
        0 <= selected < count,
    ensures
        0 <= below(selected, count) < count,
        0 <= above(selected) < count,
        within(selected, count) == selected,
{
}

} // verus!
