//! Character classification used by the lexer.
//!
//! The engine recognises identifiers by the Unicode `XID_Start` /
//! `XID_Continue` properties and trims arguments by the Unicode
//! `White_Space` property. The property tables live in outside code; the
//! three classifications are named here and everything above them is
//! verified against those names.
use vstd::prelude::*;

verus! {

/// Whether a character has the Unicode `XID_Start` property.
pub uninterp spec fn xid_start(c: char) -> bool;

/// Whether a character has the Unicode `XID_Continue` property.
pub uninterp spec fn xid_continue(c: char) -> bool;

/// Whether a character has the Unicode `White_Space` property.
pub uninterp spec fn white_space(c: char) -> bool;

/// Relies on unicode_ident::is_xid_start: whether the character has the
/// Unicode XID_Start property. The result depends on the character alone.
#[verifier::external_body]
pub fn char_is_xid_start(c: char) -> (r: bool)
    ensures
        r == xid_start(c),
{
    unicode_ident::is_xid_start(c)
}

/// Relies on unicode_ident::is_xid_continue: whether the character has the
/// Unicode XID_Continue property. The result depends on the character alone.
#[verifier::external_body]
pub fn char_is_xid_continue(c: char) -> (r: bool)
    ensures
        r == xid_continue(c),
{
    unicode_ident::is_xid_continue(c)
}

/// Relies on char::is_whitespace: whether the character has the Unicode
/// White_Space property. The result depends on the character alone.
#[verifier::external_body]
pub fn char_is_white_space(c: char) -> (r: bool)
    ensures
        r == white_space(c),
{
    c.is_whitespace()
}

/// A character that may open an identifier: an underscore or any
/// `XID_Start` character.
pub open spec fn ident_start(c: char) -> bool {
    c == '_' || xid_start(c)
}

pub fn char_is_ident_start(c: char) -> (r: bool)
    ensures
        r == ident_start(c),
{
    c == '_' || char_is_xid_start(c)
}

} // verus!
