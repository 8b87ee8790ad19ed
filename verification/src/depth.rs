//! How deep an input is nested, and what comes of the limit on that.

use vstd::prelude::*;

use crate::encode::{encoded, law_unsigned_reads_back, lemma_encoded};
use crate::error::Fault;
use crate::header::{Header, BIGNEG, BIGPOS};
use crate::laws::{lemma_any, lemma_big, lemma_pull};
use crate::state::{next, Elements, Len, Shown, State};

verus! {

/// A level that has been opened: `due` items come next, and `width` more for
/// each of the elements that are counted by `len`.
pub struct Level {
    pub due: nat,
    pub width: nat,
    pub len: Len,
}

/// The level that a value opens, if it does: an array has one item for each
/// element, a map two, and one item stands under a tag.
pub open spec fn opened(shown: Shown) -> Option<Level> {
    match shown {
        Shown::Sequence(Elements::Array(len)) => Some(Level { due: 0, width: 1, len }),
        Shown::Mapping(len) => Some(Level { due: 0, width: 2, len }),
        Shown::Tag(_) => Some(Level { due: 1, width: 0, len: Some(0) }),
        _ => None,
    }
}

/// `levels` and the one that a value opens.
pub open spec fn within(levels: Seq<Level>, shown: Shown) -> Seq<Level> {
    match opened(shown) {
        Some(level) => levels.push(level),
        None => levels,
    }
}

/// What comes next in a level: an item that leaves `level` so, or the end.
pub open spec fn step(level: Level, state: State) -> (Result<Option<Level>, Fault>, State) {
    if level.due > 0 {
        (Ok(Some(Level { due: (level.due - 1) as nat, ..level })), state)
    } else {
        let (more, len, after) = next(level.len, state);
        (
            match more {
                Ok(Some(_)) => Ok(Some(Level { due: (level.width - 1) as nat, len, ..level })),
                Ok(None) => Ok(None),
                Err(fault) => Err(fault),
            },
            after,
        )
    }
}

/// Reads an item of any kind, all that it holds, and what is left of the levels
/// around it.
pub open spec fn read_item(levels: Seq<Level>, state: State) -> (Result<(), Fault>, State)
    decreases state.input.pending(), 0nat,
{
    proof {
        lemma_any(state);
    }
    match state.any() {
        (Ok(shown), after) => read_rest(within(levels, shown), after),
        (Err(fault), after) => (Err(fault), after),
    }
}

/// Reads what is left of these levels, the innermost one first.
pub open spec fn read_rest(levels: Seq<Level>, state: State) -> (Result<(), Fault>, State)
    decreases state.input.pending(), levels.len() + 1,
{
    proof {
        lemma_pull(state.input);
    }
    if levels.len() == 0 {
        (Ok(()), state)
    } else {
        match step(levels.last(), state) {
            (Ok(Some(level)), after) => read_item(levels.drop_last().push(level), after),
            (Ok(None), after) => read_rest(levels.drop_last(), after.closing()),
            (Err(fault), after) => (Err(fault), after),
        }
    }
}

/// Reads an item of any kind and all that it holds.
pub open spec fn read_whole(state: State) -> (Result<(), Fault>, State) {
    read_item(seq![], state)
}

/// The greatest number of levels that are open at once when an item is read with
/// all that it holds, if there is no limit, and what is left of the levels around
/// it: up to the end, or to where the input is faulty.
pub open spec fn item_depth(levels: Seq<Level>, state: State) -> nat
    decreases state.input.pending(), 0nat,
{
    proof {
        lemma_any(state.with_budget(1));
    }
    match state.with_budget(1).any() {
        (Ok(shown), after) => rest_depth(within(levels, shown), after),
        (Err(_), _) => levels.len(),
    }
}

/// The greatest number of levels that are open at once when what is left of these
/// is read.
pub open spec fn rest_depth(levels: Seq<Level>, state: State) -> nat
    decreases state.input.pending(), levels.len() + 1,
{
    proof {
        lemma_pull(state.input);
    }
    let deeper = if levels.len() == 0 {
        0
    } else {
        match step(levels.last(), state) {
            (Ok(Some(level)), after) => item_depth(levels.drop_last().push(level), after),
            (Ok(None), after) => rest_depth(levels.drop_last(), after),
            (Err(_), _) => 0,
        }
    };
    if deeper >= levels.len() {
        deeper
    } else {
        levels.len()
    }
}

/// How deep the next item is nested: how many arrays, maps and tags are open at
/// once at the most when it is read, up to its end or to where it is faulty.
pub open spec fn depth(state: State) -> nat {
    item_depth(seq![], state)
}

/// Whether a read with `budget` levels left, `limited`, is the one with a single
/// level left, but that it is refused where it would open one that is missing.
spec fn is_limited(
    read: (Result<Shown, Fault>, State),
    budget: nat,
    limited: (Result<Shown, Fault>, State),
) -> bool {
    let (shown, after) = read;
    if shown is Ok && opened(shown->Ok_0) is Some {
        if budget == 0 {
            limited.0 == Err::<Shown, Fault>(Fault::RecursionLimitExceeded)
        } else {
            limited == (shown, after.with_budget((budget - 1) as nat))
        }
    } else {
        limited == (shown, after.with_budget(budget))
    }
}

/// A string is the same under every limit.
proof fn lemma_string_limit(state: State, budget: nat)
    requires
        state.input.pull().0 is Ok,
        state.input.pull().0->Ok_0 is Bytes || state.input.pull().0->Ok_0 is Text,
    ensures
        is_limited(state.with_budget(1).any(), budget, state.with_budget(budget).any()),
{
    let held = state.with(state.input.pull().1.pushed());
    assert(held.input.pull() == state.input.pull());
}

/// A number, a simple value or a break is the same under every limit.
proof fn lemma_value_limit(state: State, budget: nat)
    requires
        match state.input.pull().0 {
            Ok(Header::Bytes(_)) => false,
            Ok(Header::Text(_)) => false,
            Ok(Header::Array(_)) => false,
            Ok(Header::Mapping(_)) => false,
            Ok(Header::Tag(_)) => false,
            _ => true,
        },
    ensures
        is_limited(state.with_budget(1).any(), budget, state.with_budget(budget).any()),
{
    if state.input.pull().0 is Ok {
        let held = state.with(state.input.pull().1.pushed());
        assert(held.input.pull() == state.input.pull());
    }
}

/// An array or a map opens a level, if one is left.
proof fn lemma_open_limit(state: State, budget: nat)
    requires
        state.input.pull().0 is Ok,
        state.input.pull().0->Ok_0 is Array || state.input.pull().0->Ok_0 is Mapping,
    ensures
        is_limited(state.with_budget(1).any(), budget, state.with_budget(budget).any()),
{
    let held = state.with(state.input.pull().1.pushed());
    assert(held.input.pull() == state.input.pull());
}

/// A tag opens a level, if one is left, unless it is the tag of an integer.
proof fn lemma_tag_limit(state: State, budget: nat)
    requires
        state.input.pull().0 matches Ok(Header::Tag(_)),
    ensures
        is_limited(state.with_budget(1).any(), budget, state.with_budget(budget).any()),
{
    let held = state.with(state.input.pull().1.pushed());
    assert(held.input.pull() == state.input.pull());
}

/// A value of any kind is the same under every limit that leaves a level to open,
/// and with none left only those values are refused that would open one.
proof fn lemma_any_limit(state: State, budget: nat)
    ensures
        is_limited(state.with_budget(1).any(), budget, state.with_budget(budget).any()),
        state.with_budget(1).any().0 != Err::<Shown, Fault>(Fault::RecursionLimitExceeded),
{
    lemma_any(state.with_budget(1));
    match state.input.pull().0 {
        Ok(Header::Bytes(_)) => lemma_string_limit(state, budget),
        Ok(Header::Text(_)) => lemma_string_limit(state, budget),
        Ok(Header::Array(_)) => lemma_open_limit(state, budget),
        Ok(Header::Mapping(_)) => lemma_open_limit(state, budget),
        Ok(Header::Tag(_)) => lemma_tag_limit(state, budget),
        _ => lemma_value_limit(state, budget),
    }
}

/// Whether the value under this header opens a level: an array, a map, or a tag
/// that is not the tag of an integer.
pub open spec fn would_open(pulled: Result<Header, Fault>) -> bool {
    match pulled {
        Ok(Header::Array(_)) => true,
        Ok(Header::Mapping(_)) => true,
        Ok(Header::Tag(tag)) => tag != BIGPOS && tag != BIGNEG,
        _ => false,
    }
}

/// A value of any kind spends a level if it opens one, and is refused for want of
/// a level only where it would.
pub proof fn law_any_spends_the_budget(state: State)
    ensures
        match state.any() {
            (Ok(shown), after) => after.budget == if opened(shown) is Some {
                state.budget - 1
            } else {
                state.budget as int
            },
            (Err(fault), after) => {
                &&& after.budget == state.budget
                &&& fault == Fault::RecursionLimitExceeded <==> state.budget == 0
                    && would_open(state.input.pull().0)
            },
        },
{
    lemma_any_limit(state, state.budget);
    assert(state.with_budget(state.budget) == state);
    let (pulled, after) = state.input.pull();
    let held = state.with(after.pushed());
    if pulled is Ok {
        assert(held.input.pull() == (pulled, after));
        if let Ok(Header::Tag(tag)) = pulled {
            if tag == BIGPOS || tag == BIGNEG {
                lemma_big(state.with(after), tag == BIGNEG, true);
            }
        }
    }
}

proof fn lemma_step_limit(level: Level, state: State, budget: nat)
    ensures
        ({
            let (stepped, after) = step(level, state);
            &&& step(level, state.with_budget(budget)) == (stepped, after.with_budget(budget))
            &&& after.input.pending() <= state.input.pending()
            &&& stepped != Err::<Option<Level>, Fault>(Fault::RecursionLimitExceeded)
        }),
{
    lemma_pull(state.input);
}

/// What a limit that leaves `budget` levels makes of an item and the levels
/// around it, and a limit that leaves `other`.
proof fn lemma_item_limit(levels: Seq<Level>, state: State, budget: nat, other: nat)
    ensures
        ({
            let deep = item_depth(levels, state);
            let (read, after) = read_item(levels, state.with_budget(budget));
            let (read_other, after_other) = read_item(levels, state.with_budget(other));
            &&& deep >= levels.len()
            &&& deep > levels.len() + budget ==> read == Err::<(), Fault>(
                Fault::RecursionLimitExceeded,
            )
            &&& deep <= levels.len() + budget ==> {
                &&& read != Err::<(), Fault>(Fault::RecursionLimitExceeded)
                &&& read is Ok ==> after.budget == levels.len() + budget
                &&& deep <= levels.len() + other ==> read_other == read && after_other.input
                    == after.input
            }
        }),
    decreases state.input.pending(), 0nat,
{
    lemma_any(state.with_budget(1));
    lemma_any_limit(state, budget);
    lemma_any_limit(state, other);
    if let (Ok(shown), after) = state.with_budget(1).any() {
        let inner = within(levels, shown);
        if opened(shown) is Some {
            let less = if budget > 0 {
                (budget - 1) as nat
            } else {
                0
            };
            let less_other = if other > 0 {
                (other - 1) as nat
            } else {
                0
            };
            lemma_rest_limit(inner, after, less, less_other);
        } else {
            lemma_rest_limit(inner, after, budget, other);
        }
    }
}

/// What a limit that leaves `budget` levels makes of the rest of these, and a
/// limit that leaves `other`.
proof fn lemma_rest_limit(levels: Seq<Level>, state: State, budget: nat, other: nat)
    ensures
        ({
            let deep = rest_depth(levels, state);
            let (read, after) = read_rest(levels, state.with_budget(budget));
            let (read_other, after_other) = read_rest(levels, state.with_budget(other));
            &&& deep >= levels.len()
            &&& deep > levels.len() + budget ==> read == Err::<(), Fault>(
                Fault::RecursionLimitExceeded,
            )
            &&& deep <= levels.len() + budget ==> {
                &&& read != Err::<(), Fault>(Fault::RecursionLimitExceeded)
                &&& read is Ok ==> after.budget == levels.len() + budget
                &&& deep <= levels.len() + other ==> read_other == read && after_other.input
                    == after.input
            }
        }),
    decreases state.input.pending(), levels.len() + 1,
{
    if levels.len() > 0 {
        lemma_step_limit(levels.last(), state, budget);
        lemma_step_limit(levels.last(), state, other);
        match step(levels.last(), state) {
            (Ok(Some(level)), after) => {
                lemma_item_limit(levels.drop_last().push(level), after, budget, other);
            },
            (Ok(None), after) => {
                lemma_rest_limit(levels.drop_last(), after, budget + 1, other + 1);
                assert(after.with_budget(budget).closing() == after.with_budget(budget + 1));
                assert(after.with_budget(other).closing() == after.with_budget(other + 1));
            },
            (Err(_), _) => {},
        }
    }
}

/// An input that is nested deeper than the limit is refused with
/// [`Fault::RecursionLimitExceeded`], and no other is.
pub proof fn law_recursion_limit(state: State)
    ensures
        read_whole(state).0 == Err::<(), Fault>(Fault::RecursionLimitExceeded) <==> depth(state)
            > state.budget,
{
    lemma_item_limit(seq![], state, state.budget, state.budget);
    assert(state.with_budget(state.budget) == state);
}

/// To an input that is not nested too deep, the limit makes no difference, and
/// every level that was opened has been closed.
pub proof fn law_limit_is_no_matter(state: State, limit: nat)
    requires
        depth(state) <= state.budget,
        depth(state) <= limit,
    ensures
        read_whole(state.with_budget(limit)).0 == read_whole(state).0,
        read_whole(state.with_budget(limit)).1.input == read_whole(state).1.input,
        read_whole(state).0 is Ok ==> read_whole(state).1.budget == state.budget,
{
    lemma_item_limit(seq![], state, state.budget, limit);
    assert(state.with_budget(state.budget) == state);
}

/// Whether nothing is left of any of these levels.
spec fn are_finished(levels: Seq<Level>) -> bool {
    forall|i: int|
        #![trigger levels[i]]
        0 <= i < levels.len() ==> levels[i].due == 0 && levels[i].len == Some(0usize)
}

proof fn lemma_finished(levels: Seq<Level>, state: State)
    requires
        are_finished(levels),
    ensures
        rest_depth(levels, state) == levels.len(),
    decreases levels.len(),
{
    if levels.len() > 0 {
        lemma_finished(levels.drop_last(), state);
    }
}

/// The heads of `n` arrays, each the only element of the one before it.
pub open spec fn array_heads(n: nat) -> Seq<u8>
    decreases n,
{
    if n == 0 {
        seq![]
    } else {
        encoded(4, 1, 1) + array_heads((n - 1) as nat)
    }
}

proof fn lemma_array_heads(levels: Seq<Level>, state: State, n: nat, x: u64, rest: Seq<u8>)
    requires
        are_finished(levels),
        state.starts_with(array_heads(n) + encoded(0, x as nat, 9), rest),
    ensures
        item_depth(levels, state) == levels.len() + n,
    decreases n,
{
    let single = state.with_budget(1);
    if n == 0 {
        assert(array_heads(n) + encoded(0, x as nat, 9) =~= encoded(0, x as nat, 9));
        law_unsigned_reads_back(single, x, 9, rest);
        lemma_finished(levels, single.any().1);
    } else {
        let inner = array_heads((n - 1) as nat) + encoded(0, x as nat, 9);
        assert(state.input.unread =~= encoded(4, 1, 1) + (inner + rest));
        lemma_encoded(4, 1, 1, inner + rest);
        let after = single.input.pull().1;
        let held = single.with(after.pushed());
        assert(held.input.pull().1 == after);
        let opened = Level { due: 0, width: 1, len: Some(1usize) };
        assert(single.any() == (
            Ok::<Shown, Fault>(Shown::Sequence(Elements::Array(Some(1usize)))),
            single.with(after).with_budget(0),
        ));
        let entered = Level { due: 0, width: 1, len: Some(0usize) };
        let around = levels.push(opened);
        assert(around.last() == opened && around.drop_last() =~= levels);
        let within = levels.push(entered);
        let state = single.with(after).with_budget(0);
        assert(state.starts_with(inner, rest));
        lemma_array_heads(within, state, (n - 1) as nat, x, rest);
        assert(rest_depth(around, state) == item_depth(within, state));
    }
}

/// An integer in `n` arrays is nested `n` levels deep, so it is read under a limit
/// of `n` levels and refused under every smaller one.
pub proof fn law_nested_arrays(state: State, n: nat, x: u64, rest: Seq<u8>)
    requires
        state.starts_with(array_heads(n) + encoded(0, x as nat, 9), rest),
    ensures
        depth(state) == n,
        read_whole(state).0 == Err::<(), Fault>(Fault::RecursionLimitExceeded) <==> state.budget
            < n,
{
    lemma_array_heads(seq![], state, n, x, rest);
    law_recursion_limit(state);
}

/// Whether a read with `more` levels left, `again`, is the same but for these,
/// unless it was refused for want of a level.
pub open spec fn is_looser<T>(
    read: (Result<T, Fault>, State),
    more: nat,
    again: (Result<T, Fault>, State),
) -> bool {
    read.0 != Err::<T, Fault>(Fault::RecursionLimitExceeded) ==> again == (
        read.0,
        read.1.with_budget(read.1.budget + more),
    )
}

/// With more levels left, a read that was not refused for want of one comes to the
/// same, and what it spends is the same.
pub proof fn law_limit_decides_nothing_else(state: State, more: nat, name: Seq<char>)
    ensures
        ({
            let other = state.with_budget(state.budget + more);
            &&& is_looser(state.bool(), more, other.bool())
            &&& is_looser(state.float(), more, other.float())
            &&& is_looser(state.unit(), more, other.unit())
            &&& is_looser(state.u64(), more, other.u64())
            &&& is_looser(state.u128(), more, other.u128())
            &&& is_looser(state.i64(), more, other.i64())
            &&& is_looser(state.i128(), more, other.i128())
            &&& is_looser(state.char(), more, other.char())
            &&& is_looser(state.str(), more, other.str())
            &&& is_looser(state.identifier(), more, other.identifier())
            &&& is_looser(state.string(), more, other.string())
            &&& is_looser(state.bytes(), more, other.bytes())
            &&& is_looser(state.byte_buf(), more, other.byte_buf())
            &&& is_looser(state.seq(), more, other.seq())
            &&& is_looser(state.map(), more, other.map())
            &&& is_looser(state.option(), more, other.option())
            &&& is_looser(state.enumeration(name), more, other.enumeration(name))
            &&& is_looser(state.any(), more, other.any())
        }),
{
    lemma_looser_opening(state, more, name);
    lemma_looser_values(state, more);
    lemma_looser_any(state, more);
}

pub proof fn lemma_looser_any(state: State, more: nat)
    ensures
        is_looser(state.any(), more, state.with_budget(state.budget + more).any()),
{
    lemma_any_limit(state, state.budget);
    lemma_any_limit(state, state.budget + more);
    assert(state.with_budget(state.budget) == state);
}

proof fn lemma_looser_values(state: State, more: nat)
    ensures
        ({
            let other = state.with_budget(state.budget + more);
            &&& is_looser(state.bool(), more, other.bool())
            &&& is_looser(state.float(), more, other.float())
            &&& is_looser(state.unit(), more, other.unit())
            &&& is_looser(state.u64(), more, other.u64())
            &&& is_looser(state.u128(), more, other.u128())
            &&& is_looser(state.i64(), more, other.i64())
            &&& is_looser(state.i128(), more, other.i128())
            &&& is_looser(state.char(), more, other.char())
            &&& is_looser(state.str(), more, other.str())
            &&& is_looser(state.identifier(), more, other.identifier())
            &&& is_looser(state.string(), more, other.string())
            &&& is_looser(state.option(), more, other.option())
        }),
{
}

proof fn lemma_looser_opening(state: State, more: nat, name: Seq<char>)
    ensures
        ({
            let other = state.with_budget(state.budget + more);
            &&& is_looser(state.bytes(), more, other.bytes())
            &&& is_looser(state.byte_buf(), more, other.byte_buf())
            &&& is_looser(state.seq(), more, other.seq())
            &&& is_looser(state.map(), more, other.map())
            &&& is_looser(state.enumeration(name), more, other.enumeration(name))
        }),
{
}

} // verus!
