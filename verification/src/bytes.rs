//! The bytes that delimit markup.
use vstd::prelude::*;

verus! {

/// `<`
pub const LT: u8 = 0x3c;

/// `>`
pub const GT: u8 = 0x3e;

/// `&`
pub const AMP: u8 = 0x26;

/// `;`
pub const SEMICOLON: u8 = 0x3b;

/// `!`
pub const BANG: u8 = 0x21;

/// `?`
pub const QUESTION: u8 = 0x3f;

/// `/`
pub const SLASH: u8 = 0x2f;

/// `-`
pub const DASH: u8 = 0x2d;

/// `[`
pub const BRACKET_OPEN: u8 = 0x5b;

/// `]`
pub const BRACKET_CLOSE: u8 = 0x5d;

/// `A`
pub const UPPER_A: u8 = 0x41;

/// `Z`
pub const UPPER_Z: u8 = 0x5a;

/// `b` is an upper-case ASCII letter.
pub open spec fn is_upper(b: u8) -> bool {
    UPPER_A <= b <= UPPER_Z
}

/// The two bytes that close a processing instruction: `?>`.
pub open spec fn pi_close() -> Seq<u8> {
    seq![QUESTION, GT]
}

/// The three bytes that close a comment: `-->`.
pub open spec fn comment_close() -> Seq<u8> {
    seq![DASH, DASH, GT]
}

} // verus!
