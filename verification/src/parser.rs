//! The escape sequence parser, which is vte's, and what is known of it.

use vstd::prelude::*;
use vstd::utf8::*;
use crate::builder::{Building, Event, TLineBuilder};

verus! {

/// vte's parser. Of what it holds nothing is known but the two names below.
#[verifier::external_type_specification]
#[verifier::external_body]
pub struct ExParser(vte::Parser);

/// The bytes that a vte parser has been given since it was made. What it
/// does with the next byte depends on nothing else.
pub uninterp spec fn consumed(parser: vte::Parser) -> Seq<u8>;

/// The calls of `vte::Perform` that a vte parser makes, in order, when it is
/// given `byte` after it has been given `before` since it was made. Most bytes
/// lead to no call or to one; a byte that ends one state and begins another
/// can lead to more.
pub uninterp spec fn dispatched(before: Seq<u8>, byte: u8) -> Seq<Event>;

/// The calls that a new parser makes when it is given `bytes` one by one.
pub open spec fn events_of(bytes: Seq<u8>) -> Seq<Event>
    decreases bytes.len(),
{
    if bytes.len() == 0 {
        Seq::empty()
    } else {
        events_of(bytes.drop_last()) + dispatched(bytes.drop_last(), bytes.last())
    }
}

/// The calls that a new parser makes when it is given a text in UTF-8.
pub open spec fn tty_events(tty: Seq<char>) -> Seq<Event> {
    events_of(encode_utf8(tty))
}

/// `vte::Parser::new` makes a parser in its ground state, which has been
/// given nothing yet.
pub assume_specification[ vte::Parser::new ]() -> (parser: vte::Parser)
    ensures
        consumed(parser) == Seq::<u8>::empty(),
;

/// `vte::Parser::advance` with a builder as its performer: the parser takes
/// the byte in, and reports what it has decoded by calls of the builder's
/// methods, which leave the builder as their contracts say.
#[verifier::external_body]
pub(crate) fn advance(parser: &mut vte::Parser, builder: &mut TLineBuilder, byte: u8)
    ensures
        consumed(*final(parser)) == consumed(*old(parser)).push(byte),
        final(builder)@ == old(builder)@.perform_all(dispatched(consumed(*old(parser)), byte)),
{
    parser.advance(builder, byte);
}

/// Events performed one after the other can be performed in two parts.
pub proof fn lemma_perform_all_concat(start: Building, a: Seq<Event>, b: Seq<Event>)
    ensures
        start.perform_all(a + b) == start.perform_all(a).perform_all(b),
    decreases a.len(),
{
    if a.len() == 0 {
        assert(a + b =~= b);
    } else {
        assert((a + b).drop_first() =~= a.drop_first() + b);
        lemma_perform_all_concat(start.perform(a[0]), a.drop_first(), b);
    }
}

} // verus!
