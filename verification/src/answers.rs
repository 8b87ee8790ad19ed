//! What a visitor may ask for, and what it is answered.

use vstd::prelude::*;

use crate::depth::{is_looser, lemma_looser_any};
use crate::error::Fault;
use crate::laws::{
    is_later, law_any_goes_forward, law_buffer_is_no_matter, law_buffer_is_no_matter_to_any,
    law_reads_go_forward, lemma_pull, plain,
};
use crate::reads::{
    is_cut, is_same, lemma_any_cut, lemma_any_same, lemma_leaves_cut, lemma_leaves_same,
    lemma_looks_cut, lemma_looks_same, lemma_numbers_cut, lemma_numbers_same, lemma_short_cut,
    lemma_short_same, lemma_strings_cut, lemma_strings_same,
};
use crate::state::{mapped, next, Elements, EnumForm, Len, Shown, State};

verus! {

/// What a visitor asks for.
pub enum Ask {
    Bool,
    Float,
    Unit,
    U64,
    U128,
    I64,
    I128,
    Char,
    Str,
    Identifier,
    Text,
    Bytes,
    ByteBuf,
    Sequence,
    Mapping,
    Optional,
    Enumeration(Seq<char>),
    Any,
    /// Another element of an array or a map with so many to come.
    Element(Len),
    /// That the innermost level is closed.
    Close,
}

/// What a visitor is answered.
pub enum Answer {
    Bool(bool),
    Float(u64),
    Unit,
    U64(u64),
    U128(u128),
    I64(i64),
    I128(i128),
    Char(char),
    Text(Seq<char>),
    Elements(Elements),
    Mapping(Len),
    Optional(bool),
    Enumeration(EnumForm),
    Any(Shown),
    Element(Option<()>),
    Closed,
}

/// What comes of asking once.
#[verifier::opaque]
pub open spec fn answer(ask: Ask, state: State) -> (Result<Answer, Fault>, State) {
    match ask {
        Ask::Bool => (mapped(state.bool().0, |x| Answer::Bool(x)), state.bool().1),
        Ask::Float => (mapped(state.float().0, |x| Answer::Float(x)), state.float().1),
        Ask::Unit => (mapped(state.unit().0, |x| Answer::Unit), state.unit().1),
        Ask::U64 => (mapped(state.u64().0, |x| Answer::U64(x)), state.u64().1),
        Ask::U128 => (mapped(state.u128().0, |x| Answer::U128(x)), state.u128().1),
        Ask::I64 => (mapped(state.i64().0, |x| Answer::I64(x)), state.i64().1),
        Ask::I128 => (mapped(state.i128().0, |x| Answer::I128(x)), state.i128().1),
        Ask::Char => (mapped(state.char().0, |x| Answer::Char(x)), state.char().1),
        Ask::Str => (mapped(state.str().0, |x| Answer::Text(x)), state.str().1),
        Ask::Identifier => (
            mapped(state.identifier().0, |x| Answer::Text(x)),
            state.identifier().1,
        ),
        Ask::Text => (mapped(state.string().0, |x| Answer::Text(x)), state.string().1),
        Ask::Bytes => (mapped(state.bytes().0, |x| Answer::Elements(x)), state.bytes().1),
        Ask::ByteBuf => (mapped(state.byte_buf().0, |x| Answer::Elements(x)), state.byte_buf().1),
        Ask::Sequence => (mapped(state.seq().0, |x| Answer::Elements(x)), state.seq().1),
        Ask::Mapping => (mapped(state.map().0, |x| Answer::Mapping(x)), state.map().1),
        Ask::Optional => (mapped(state.option().0, |x| Answer::Optional(x)), state.option().1),
        Ask::Enumeration(name) => (
            mapped(state.enumeration(name).0, |x| Answer::Enumeration(x)),
            state.enumeration(name).1,
        ),
        Ask::Any => (mapped(state.any().0, |x| Answer::Any(x)), state.any().1),
        Ask::Element(len) => (
            mapped(next(len, state).0, |x| Answer::Element(x)),
            next(len, state).2,
        ),
        Ask::Close => (Ok(Answer::Closed), state.closing()),
    }
}

/// Whether a string is asked for that goes through the scratch buffer.
spec fn is_string(ask: Ask) -> bool {
    match ask {
        Ask::Str | Ask::Identifier | Ask::Text => true,
        Ask::Bytes | Ask::ByteBuf | Ask::Sequence => true,
        _ => false,
    }
}

/// Whether a level is asked for, or what is needed to get about in one.
spec fn is_level(ask: Ask) -> bool {
    match ask {
        Ask::Mapping | Ask::Enumeration(_) | Ask::Optional | Ask::Element(_) | Ask::Close => true,
        _ => false,
    }
}

/// An answer, whether or not its value was to fit the scratch buffer.
pub open spec fn plain_answer(answer: Answer) -> Answer {
    match answer {
        Answer::Any(shown) => Answer::Any(plain(shown)),
        _ => answer,
    }
}

proof fn lemma_value_answer_past(ask: Ask, state: State)
    requires
        !is_string(ask) && !is_level(ask) && ask !is Any,
    ensures
        is_later(answer(ask, state).1, state),
{
    reveal(answer);
    law_reads_go_forward(state, seq![]);
}

proof fn lemma_string_answer_past(ask: Ask, state: State)
    requires
        is_string(ask),
    ensures
        is_later(answer(ask, state).1, state),
{
    reveal(answer);
    law_reads_go_forward(state, seq![]);
}

proof fn lemma_level_answer_past(ask: Ask, state: State)
    requires
        is_level(ask),
    ensures
        is_later(answer(ask, state).1, state),
{
    reveal(answer);
    assert(state.input.unread.skip(0) =~= state.input.unread);
    lemma_pull(state.input);
    match ask {
        Ask::Enumeration(name) => law_reads_go_forward(state, name),
        _ => law_reads_go_forward(state, seq![]),
    }
}

proof fn lemma_any_answer_past(ask: Ask, state: State)
    requires
        ask is Any,
    ensures
        is_later(answer(ask, state).1, state),
{
    reveal(answer);
    law_any_goes_forward(state);
}

/// An answer goes forward.
pub proof fn lemma_answer_past(ask: Ask, state: State)
    ensures
        is_later(answer(ask, state).1, state),
{
    if is_string(ask) {
        lemma_string_answer_past(ask, state);
    } else if is_level(ask) {
        lemma_level_answer_past(ask, state);
    } else if ask is Any {
        lemma_any_answer_past(ask, state);
    } else {
        lemma_value_answer_past(ask, state);
    }
}

proof fn lemma_number_answer_same(ask: Ask, state: State, other: Seq<u8>)
    requires
        ask is U64 || ask is U128 || ask is I64 || ask is I128,
    ensures
        is_same(state, answer(ask, state), other, answer(ask, state.with_unread(other))),
{
    reveal(answer);
    lemma_numbers_same(state, other);
}

proof fn lemma_leaf_answer_same(ask: Ask, state: State, other: Seq<u8>)
    requires
        ask is Bool || ask is Float || ask is Unit,
    ensures
        is_same(state, answer(ask, state), other, answer(ask, state.with_unread(other))),
{
    reveal(answer);
    lemma_leaves_same(state, other, seq![]);
}

proof fn lemma_short_answer_same(ask: Ask, state: State, other: Seq<u8>)
    requires
        ask is Char || ask is Str || ask is Identifier || ask is Bytes,
    ensures
        is_same(state, answer(ask, state), other, answer(ask, state.with_unread(other))),
{
    reveal(answer);
    lemma_short_same(state, other);
}

proof fn lemma_string_answer_same(ask: Ask, state: State, other: Seq<u8>)
    requires
        ask is Text || ask is ByteBuf || ask is Sequence,
    ensures
        is_same(state, answer(ask, state), other, answer(ask, state.with_unread(other))),
{
    reveal(answer);
    lemma_strings_same(state, other);
}

proof fn lemma_look_answer_same(ask: Ask, state: State, other: Seq<u8>)
    requires
        ask is Optional || ask is Element || ask is Close,
    ensures
        is_same(state, answer(ask, state), other, answer(ask, state.with_unread(other))),
{
    reveal(answer);
    assert(other.skip(0) =~= other);
    match ask {
        Ask::Element(len) => lemma_looks_same(state, other, len),
        _ => lemma_looks_same(state, other, None),
    }
}

proof fn lemma_open_answer_same(ask: Ask, state: State, other: Seq<u8>)
    requires
        ask is Mapping || ask is Enumeration,
    ensures
        is_same(state, answer(ask, state), other, answer(ask, state.with_unread(other))),
{
    reveal(answer);
    if let Ask::Enumeration(name) = ask {
        lemma_leaves_same(state, other, name);
        lemma_looks_same(state, other, None);
    } else {
        lemma_leaves_same(state, other, seq![]);
    }
}

proof fn lemma_any_answer_same(ask: Ask, state: State, other: Seq<u8>)
    requires
        ask is Any,
    ensures
        is_same(state, answer(ask, state), other, answer(ask, state.with_unread(other))),
{
    reveal(answer);
    lemma_any_same(state, other);
}

/// An answer is decided by the bytes that are taken for it.
pub proof fn lemma_answer_same(ask: Ask, state: State, other: Seq<u8>)
    ensures
        is_same(state, answer(ask, state), other, answer(ask, state.with_unread(other))),
{
    match ask {
        Ask::U64 => lemma_number_answer_same(ask, state, other),
        Ask::U128 => lemma_number_answer_same(ask, state, other),
        Ask::I64 => lemma_number_answer_same(ask, state, other),
        Ask::I128 => lemma_number_answer_same(ask, state, other),
        Ask::Bool => lemma_leaf_answer_same(ask, state, other),
        Ask::Float => lemma_leaf_answer_same(ask, state, other),
        Ask::Unit => lemma_leaf_answer_same(ask, state, other),
        Ask::Char => lemma_short_answer_same(ask, state, other),
        Ask::Str => lemma_short_answer_same(ask, state, other),
        Ask::Identifier => lemma_short_answer_same(ask, state, other),
        Ask::Bytes => lemma_short_answer_same(ask, state, other),
        Ask::Text => lemma_string_answer_same(ask, state, other),
        Ask::ByteBuf => lemma_string_answer_same(ask, state, other),
        Ask::Sequence => lemma_string_answer_same(ask, state, other),
        Ask::Optional => lemma_look_answer_same(ask, state, other),
        Ask::Element(_) => lemma_look_answer_same(ask, state, other),
        Ask::Close => lemma_look_answer_same(ask, state, other),
        Ask::Mapping => lemma_open_answer_same(ask, state, other),
        Ask::Enumeration(_) => lemma_open_answer_same(ask, state, other),
        Ask::Any => lemma_any_answer_same(ask, state, other),
    }
}

proof fn lemma_number_answer_cut(ask: Ask, state: State, count: nat)
    requires
        ask is U64 || ask is U128 || ask is I64 || ask is I128,
    ensures
        is_cut(state, answer(ask, state), count, answer(ask, state.cut(count))),
{
    reveal(answer);
    lemma_numbers_cut(state, count);
}

proof fn lemma_leaf_answer_cut(ask: Ask, state: State, count: nat)
    requires
        ask is Bool || ask is Float || ask is Unit,
    ensures
        is_cut(state, answer(ask, state), count, answer(ask, state.cut(count))),
{
    reveal(answer);
    lemma_leaves_cut(state, count, seq![]);
}

proof fn lemma_short_answer_cut(ask: Ask, state: State, count: nat)
    requires
        ask is Char || ask is Str || ask is Identifier || ask is Bytes,
    ensures
        is_cut(state, answer(ask, state), count, answer(ask, state.cut(count))),
{
    reveal(answer);
    lemma_short_cut(state, count);
}

proof fn lemma_string_answer_cut(ask: Ask, state: State, count: nat)
    requires
        ask is Text || ask is ByteBuf || ask is Sequence,
    ensures
        is_cut(state, answer(ask, state), count, answer(ask, state.cut(count))),
{
    reveal(answer);
    lemma_strings_cut(state, count);
}

proof fn lemma_look_answer_cut(ask: Ask, state: State, count: nat)
    requires
        ask is Optional || ask is Element || ask is Close,
    ensures
        is_cut(state, answer(ask, state), count, answer(ask, state.cut(count))),
{
    reveal(answer);
    match ask {
        Ask::Element(len) => lemma_looks_cut(state, count, len),
        _ => lemma_looks_cut(state, count, None),
    }
}

proof fn lemma_open_answer_cut(ask: Ask, state: State, count: nat)
    requires
        ask is Mapping || ask is Enumeration,
    ensures
        is_cut(state, answer(ask, state), count, answer(ask, state.cut(count))),
{
    reveal(answer);
    if let Ask::Enumeration(name) = ask {
        lemma_leaves_cut(state, count, name);
        lemma_looks_cut(state, count, None);
    } else {
        lemma_leaves_cut(state, count, seq![]);
    }
}

proof fn lemma_any_answer_cut(ask: Ask, state: State, count: nat)
    requires
        ask is Any,
    ensures
        is_cut(state, answer(ask, state), count, answer(ask, state.cut(count))),
{
    reveal(answer);
    lemma_any_cut(state, count);
}

/// An answer is that the bytes end if any are missing that it takes.
pub proof fn lemma_answer_cut(ask: Ask, state: State, count: nat)
    ensures
        is_cut(state, answer(ask, state), count, answer(ask, state.cut(count))),
{
    match ask {
        Ask::U64 => lemma_number_answer_cut(ask, state, count),
        Ask::U128 => lemma_number_answer_cut(ask, state, count),
        Ask::I64 => lemma_number_answer_cut(ask, state, count),
        Ask::I128 => lemma_number_answer_cut(ask, state, count),
        Ask::Bool => lemma_leaf_answer_cut(ask, state, count),
        Ask::Float => lemma_leaf_answer_cut(ask, state, count),
        Ask::Unit => lemma_leaf_answer_cut(ask, state, count),
        Ask::Char => lemma_short_answer_cut(ask, state, count),
        Ask::Str => lemma_short_answer_cut(ask, state, count),
        Ask::Identifier => lemma_short_answer_cut(ask, state, count),
        Ask::Bytes => lemma_short_answer_cut(ask, state, count),
        Ask::Text => lemma_string_answer_cut(ask, state, count),
        Ask::ByteBuf => lemma_string_answer_cut(ask, state, count),
        Ask::Sequence => lemma_string_answer_cut(ask, state, count),
        Ask::Optional => lemma_look_answer_cut(ask, state, count),
        Ask::Element(_) => lemma_look_answer_cut(ask, state, count),
        Ask::Close => lemma_look_answer_cut(ask, state, count),
        Ask::Mapping => lemma_open_answer_cut(ask, state, count),
        Ask::Enumeration(_) => lemma_open_answer_cut(ask, state, count),
        Ask::Any => lemma_any_answer_cut(ask, state, count),
    }
}

proof fn lemma_value_answer_limit(ask: Ask, state: State, more: nat)
    requires
        !is_string(ask) && !is_level(ask) && ask !is Any,
    ensures
        is_looser(answer(ask, state), more, answer(ask, state.with_budget(state.budget + more))),
{
    reveal(answer);
}

proof fn lemma_string_answer_limit(ask: Ask, state: State, more: nat)
    requires
        is_string(ask),
    ensures
        is_looser(answer(ask, state), more, answer(ask, state.with_budget(state.budget + more))),
{
    reveal(answer);
}

proof fn lemma_level_answer_limit(ask: Ask, state: State, more: nat)
    requires
        is_level(ask),
    ensures
        is_looser(answer(ask, state), more, answer(ask, state.with_budget(state.budget + more))),
{
    reveal(answer);
}

proof fn lemma_any_answer_limit(ask: Ask, state: State, more: nat)
    requires
        ask is Any,
    ensures
        is_looser(answer(ask, state), more, answer(ask, state.with_budget(state.budget + more))),
{
    reveal(answer);
    lemma_looser_any(state, more);
}

/// With more levels left an answer is the same, unless one was missing.
pub proof fn lemma_answer_limit(ask: Ask, state: State, more: nat)
    ensures
        is_looser(answer(ask, state), more, answer(ask, state.with_budget(state.budget + more))),
{
    if is_string(ask) {
        lemma_string_answer_limit(ask, state, more);
    } else if is_level(ask) {
        lemma_level_answer_limit(ask, state, more);
    } else if ask is Any {
        lemma_any_answer_limit(ask, state, more);
    } else {
        lemma_value_answer_limit(ask, state, more);
    }
}

proof fn lemma_value_answer_buffer(ask: Ask, state: State, room: nat)
    requires
        !is_string(ask) && !is_level(ask) && ask !is Any,
        state.room <= room,
        answer(ask, state).0 is Ok,
    ensures
        ({
            let other = answer(ask, state.with_room(room));
            &&& other.0 is Ok
            &&& plain_answer(other.0->Ok_0) == plain_answer(answer(ask, state).0->Ok_0)
            &&& other.1 == answer(ask, state).1.with_room(room)
        }),
{
    reveal(answer);
}

proof fn lemma_string_answer_buffer(ask: Ask, state: State, room: nat)
    requires
        is_string(ask),
        state.room <= room,
        answer(ask, state).0 is Ok,
    ensures
        ({
            let other = answer(ask, state.with_room(room));
            &&& other.0 is Ok
            &&& plain_answer(other.0->Ok_0) == plain_answer(answer(ask, state).0->Ok_0)
            &&& other.1 == answer(ask, state).1.with_room(room)
        }),
{
    reveal(answer);
    law_buffer_is_no_matter(state, room);
}

proof fn lemma_level_answer_buffer(ask: Ask, state: State, room: nat)
    requires
        is_level(ask),
        state.room <= room,
        answer(ask, state).0 is Ok,
    ensures
        ({
            let other = answer(ask, state.with_room(room));
            &&& other.0 is Ok
            &&& plain_answer(other.0->Ok_0) == plain_answer(answer(ask, state).0->Ok_0)
            &&& other.1 == answer(ask, state).1.with_room(room)
        }),
{
    reveal(answer);
}

proof fn lemma_any_answer_buffer(ask: Ask, state: State, room: nat)
    requires
        ask is Any,
        state.room <= room,
        answer(ask, state).0 is Ok,
    ensures
        ({
            let other = answer(ask, state.with_room(room));
            &&& other.0 is Ok
            &&& plain_answer(other.0->Ok_0) == plain_answer(answer(ask, state).0->Ok_0)
            &&& other.1 == answer(ask, state).1.with_room(room)
        }),
{
    reveal(answer);
    law_buffer_is_no_matter_to_any(state, room);
}

/// With a larger buffer an answer is the same, but that more values fit.
pub proof fn lemma_answer_buffer(ask: Ask, state: State, room: nat)
    requires
        state.room <= room,
        answer(ask, state).0 is Ok,
    ensures
        ({
            let other = answer(ask, state.with_room(room));
            &&& other.0 is Ok
            &&& plain_answer(other.0->Ok_0) == plain_answer(answer(ask, state).0->Ok_0)
            &&& other.1 == answer(ask, state).1.with_room(room)
        }),
{
    if is_string(ask) {
        lemma_string_answer_buffer(ask, state, room);
    } else if is_level(ask) {
        lemma_level_answer_buffer(ask, state, room);
    } else if ask is Any {
        lemma_any_answer_buffer(ask, state, room);
    } else {
        lemma_value_answer_buffer(ask, state, room);
    }
}

} // verus!
