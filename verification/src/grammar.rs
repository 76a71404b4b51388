//! What the next token of an input is.
//!
//! A [`Cursor`] is the state of a tokenizer: the bytes not yet consumed and
//! the depth of internal subsets entered. [`step`] maps a cursor to the next
//! token and the cursor behind it. The functions it is made of each describe
//! one construct, for a cursor that stands at that construct's first byte.
use vstd::prelude::*;
use crate::bytes::{
    comment_close, is_upper, pi_close, AMP, BANG, BRACKET_CLOSE, BRACKET_OPEN, DASH, GT, LT,
    QUESTION, SEMICOLON, SLASH,
};
use crate::search::{first_match, first_of, lemma_first_match, lemma_first_of};
use crate::token::{Kind, Lexeme};

verus! {

/// The state of a tokenizer.
pub struct Cursor {
    /// The bytes not yet consumed.
    pub rest: Seq<u8>,
    /// How many declarations have opened an internal subset so far.
    pub depth: nat,
}

/// The bytes at which text ends: `<` and `&`, and inside an internal subset
/// `]` as well.
pub open spec fn markers(depth: nat) -> Set<u8> {
    if depth == 0 {
        set![LT, AMP]
    } else {
        set![LT, AMP, BRACKET_CLOSE]
    }
}

/// The token of `kind` made of the first `len` bytes, and the cursor behind
/// it.
pub open spec fn cut(c: Cursor, kind: Kind, len: int) -> (Lexeme, Cursor) {
    (Lexeme { kind, bytes: c.rest.take(len) }, Cursor { rest: c.rest.skip(len), depth: c.depth })
}

/// The terminal error: all that is left becomes one `Error` token.
pub open spec fn give_up(c: Cursor) -> (Lexeme, Cursor) {
    cut(c, Kind::Error, c.rest.len() as int)
}

/// A construct that runs through the first `end` byte, or an error where
/// there is none.
pub open spec fn through_byte(c: Cursor, kind: Kind, end: u8) -> (Lexeme, Cursor) {
    match first_of(c.rest, set![end]) {
        Some(i) => cut(c, kind, i + 1),
        None => give_up(c),
    }
}

/// A construct that has an opening of `opening` bytes and runs through the
/// first `closing` behind it, or an error where there is none.
pub open spec fn through_pattern(c: Cursor, kind: Kind, opening: int, closing: Seq<u8>) -> (
    Lexeme,
    Cursor,
) {
    match first_match(c.rest.skip(opening), closing) {
        Some(i) => cut(c, kind, opening + i + closing.len()),
        None => give_up(c),
    }
}

/// At `&`: an entity reference, through the first `;`.
pub open spec fn entity(c: Cursor) -> (Lexeme, Cursor) {
    through_byte(c, Kind::Entity, SEMICOLON)
}

/// At `<`: a start tag, through the first `>`.
pub open spec fn element(c: Cursor) -> (Lexeme, Cursor) {
    through_byte(c, Kind::Element, GT)
}

/// At `</`: an end tag, through the first `>`.
pub open spec fn element_end(c: Cursor) -> (Lexeme, Cursor) {
    through_byte(c, Kind::ElementEnd, GT)
}

/// At `]`: the end of an internal subset, through the first `>`.
pub open spec fn decl_end(c: Cursor) -> (Lexeme, Cursor) {
    through_byte(c, Kind::DeclEnd, GT)
}

/// At `<?`: a processing instruction, through the first `?>` behind the
/// opening.
pub open spec fn processing_instruction(c: Cursor) -> (Lexeme, Cursor) {
    through_pattern(c, Kind::PI, 2, pi_close())
}

/// At `<!--`: a comment, through the first `-->` behind the opening.
pub open spec fn comment(c: Cursor) -> (Lexeme, Cursor) {
    through_pattern(c, Kind::Comment, 4, comment_close())
}

/// At `<!` and a letter: a declaration, through the first `>` or `[` behind
/// the `<!`. One that ends in `[` opens an internal subset: the depth grows
/// by one.
pub open spec fn declaration(c: Cursor) -> (Lexeme, Cursor) {
    match first_of(c.rest.skip(2), set![GT, BRACKET_OPEN]) {
        Some(i) => {
            let (token, behind) = cut(c, Kind::Decl, 2 + i + 1);
            let depth = if c.rest[2 + i] == BRACKET_OPEN {
                c.depth + 1
            } else {
                c.depth
            };
            (token, Cursor { rest: behind.rest, depth })
        },
        None => give_up(c),
    }
}

/// At `<!`: a comment where `--` follows, a declaration where an upper-case
/// letter follows, and an error otherwise.
pub open spec fn builtin(c: Cursor) -> (Lexeme, Cursor) {
    if c.rest.len() >= 4 && c.rest[2] == DASH && c.rest[3] == DASH {
        comment(c)
    } else if c.rest.len() >= 3 && is_upper(c.rest[2]) {
        declaration(c)
    } else {
        give_up(c)
    }
}

/// At `<`: the byte behind it decides. Where the input ends with the `<`,
/// that is an error.
pub open spec fn structure(c: Cursor) -> (Lexeme, Cursor) {
    if c.rest.len() < 2 {
        give_up(c)
    } else if c.rest[1] == BANG {
        builtin(c)
    } else if c.rest[1] == QUESTION {
        processing_instruction(c)
    } else if c.rest[1] == SLASH {
        element_end(c)
    } else {
        element(c)
    }
}

/// The markup that starts at the cursor's first byte, which is a marker.
pub open spec fn markup(c: Cursor) -> (Lexeme, Cursor) {
    if c.rest[0] == AMP {
        entity(c)
    } else if c.rest[0] == LT {
        structure(c)
    } else {
        decl_end(c)
    }
}

/// The next token and the cursor behind it, or `None` where nothing is left.
///
/// Text runs up to the first marker, or to the end of the input where there
/// is none. At a marker the markup that starts there is the token.
pub open spec fn step(c: Cursor) -> Option<(Lexeme, Cursor)> {
    if c.rest.len() == 0 {
        None
    } else {
        Some(
            match first_of(c.rest, markers(c.depth)) {
                None => cut(c, Kind::Span, c.rest.len() as int),
                Some(i) => if i > 0 {
                    cut(c, Kind::Span, i)
                } else {
                    markup(c)
                },
            },
        )
    }
}

/// `token` is a piece of one byte or more cut off the front of `c`, and
/// `behind` is what is left. The depth stays or grows by one, and behind an
/// error nothing is left.
pub open spec fn advances(c: Cursor, token: Lexeme, behind: Cursor) -> bool {
    &&& 0 < token.bytes.len() <= c.rest.len()
    &&& token.bytes == c.rest.take(token.bytes.len() as int)
    &&& behind.rest == c.rest.skip(token.bytes.len() as int)
    &&& c.depth <= behind.depth <= c.depth + 1
    &&& token.kind is Error ==> behind.rest.len() == 0
}

/// A construct that runs through a byte advances.
proof fn lemma_through_byte(c: Cursor, kind: Kind, end: u8)
    requires
        c.rest.len() > 0,
        !(kind is Error),
    ensures
        advances(c, through_byte(c, kind, end).0, through_byte(c, kind, end).1),
{
    lemma_first_of(c.rest, set![end]);
}

/// A construct that runs through a closing pattern advances.
proof fn lemma_through_pattern(c: Cursor, kind: Kind, opening: int, closing: Seq<u8>)
    requires
        0 <= opening <= c.rest.len(),
        c.rest.len() > 0,
        closing.len() > 0,
        !(kind is Error),
    ensures
        advances(
            c,
            through_pattern(c, kind, opening, closing).0,
            through_pattern(c, kind, opening, closing).1,
        ),
{
    lemma_first_match(c.rest.skip(opening), closing);
}

/// A declaration advances.
proof fn lemma_declaration(c: Cursor)
    requires
        c.rest.len() >= 2,
    ensures
        advances(c, declaration(c).0, declaration(c).1),
{
    lemma_first_of(c.rest.skip(2), set![GT, BRACKET_OPEN]);
}

/// Every step advances: the token is a non-empty prefix of the remainder,
/// the new remainder is what stood behind it, the depth does not shrink,
/// and an error takes all that was left.
pub proof fn lemma_step(c: Cursor)
    ensures
        step(c) is Some <==> c.rest.len() > 0,
        step(c) matches Some((token, behind)) ==> advances(c, token, behind),
{
    if c.rest.len() > 0 {
        lemma_first_of(c.rest, markers(c.depth));
        if first_of(c.rest, markers(c.depth)) == Some(0int) {
            lemma_through_byte(c, Kind::Entity, SEMICOLON);
            lemma_through_byte(c, Kind::DeclEnd, GT);
            lemma_through_byte(c, Kind::Element, GT);
            lemma_through_byte(c, Kind::ElementEnd, GT);
            if c.rest.len() >= 2 {
                lemma_through_pattern(c, Kind::PI, 2, pi_close());
                lemma_declaration(c);
            }
            if c.rest.len() >= 4 {
                lemma_through_pattern(c, Kind::Comment, 4, comment_close());
            }
        }
    }
}

/// The cursor after `n` steps. Once nothing is left it stays where it is.
pub open spec fn after(c: Cursor, n: nat) -> Cursor
    decreases n,
{
    if n == 0 {
        c
    } else {
        let before = after(c, (n - 1) as nat);
        match step(before) {
            Some((_, behind)) => behind,
            None => before,
        }
    }
}

/// All the tokens from `c` on, in order.
pub open spec fn stream(c: Cursor) -> Seq<Lexeme>
    decreases c.rest.len(),
{
    match step(c) {
        Some((token, behind)) => {
            proof {
                lemma_step(c);
            }
            seq![token] + stream(behind)
        },
        None => Seq::empty(),
    }
}

/// The bytes of `tokens`, laid end to end.
pub open spec fn joined(tokens: Seq<Lexeme>) -> Seq<u8>
    decreases tokens.len(),
{
    if tokens.len() == 0 {
        Seq::empty()
    } else {
        tokens.first().bytes + joined(tokens.drop_first())
    }
}

} // verus!
