//! What holds of every input and every state of a tokenizer.
//!
//! `Tokenizer::next` does what `step` says, and `Tokenizer::collect` returns
//! what `stream` says, so each law here is a law of the tokenizer.
use vstd::prelude::*;
use crate::bytes::{
    comment_close, is_upper, pi_close, AMP, BANG, BRACKET_CLOSE, BRACKET_OPEN, DASH, GT, LT,
    QUESTION, SEMICOLON, SLASH,
};
use crate::grammar::{after, joined, lemma_step, markers, step, stream, Cursor};
use crate::search::{
    has_none_of, is_first_match, is_first_of, lemma_first_match, lemma_first_of,
    lemma_first_of_is, matches_at,
};
use crate::token::{Kind, Lexeme};

verus! {

/// The tokens from any state on, laid end to end, are exactly the bytes that
/// were left. From the start of an input they are the input: no byte is
/// skipped, doubled or moved.
pub proof fn law_partition(c: Cursor)
    ensures
        joined(stream(c)) == c.rest,
    decreases c.rest.len(),
{
    lemma_step(c);
    if let Some((_, behind)) = step(c) {
        law_partition(behind);
        assert(stream(c).drop_first() =~= stream(behind));
    }
}

/// A token holds at least one byte, whatever its kind. An `Error` token is
/// no exception: it starts with the byte at which the failed construct
/// began.
pub proof fn law_token_is_not_empty(c: Cursor)
    ensures
        step(c) matches Some((token, _)) ==> token.bytes.len() > 0,
{
    lemma_step(c);
}

/// Each step that yields a token leaves a strictly shorter remainder,
/// shorter by the length of the token.
pub proof fn law_remainder_shrinks(c: Cursor)
    ensures
        step(c) matches Some((token, behind)) ==> behind.rest.len() < c.rest.len()
            && behind.rest.len() + token.bytes.len() == c.rest.len(),
{
    lemma_step(c);
}

/// Over a run: as long as a tokenizer is not exhausted, one more step
/// leaves less than the steps before it did.
pub proof fn law_remainder_shrinks_until_exhausted(c: Cursor, n: nat)
    requires
        after(c, n).rest.len() > 0,
    ensures
        after(c, n + 1).rest.len() < after(c, n).rest.len(),
{
    lemma_step(after(c, n));
}

/// The step that yields an `Error` token leaves nothing, and no step behind
/// it, however many are taken, yields a token.
pub proof fn law_error_is_terminal(c: Cursor, n: nat)
    requires
        step(c) matches Some((token, _)) && token.kind is Error,
        n >= 1,
    ensures
        after(c, n).rest.len() == 0,
        step(after(c, n)) is None,
    decreases n,
{
    lemma_step(c);
    if n > 1 {
        law_error_is_terminal(c, (n - 1) as nat);
    } else {
        assert(after(c, 0) == c);
    }
    lemma_step(after(c, n));
}

/// The depth of a tokenizer never shrinks, over any number of steps.
pub proof fn law_depth_never_shrinks(c: Cursor, m: nat, n: nat)
    requires
        m <= n,
    ensures
        after(c, m).depth <= after(c, n).depth,
    decreases n,
{
    if m < n {
        law_depth_never_shrinks(c, m, (n - 1) as nat);
        lemma_step(after(c, (n - 1) as nat));
    }
}

/// What the bytes of a token look like, for a token taken at `depth`.
///
/// Text holds no marker. Markup starts with its opening and ends with its
/// closing delimiter, which stands nowhere earlier in it. An error starts
/// with the marker at which the failed construct began.
pub open spec fn well_delimited(token: Lexeme, depth: nat) -> bool {
    let bytes = token.bytes;
    let last = bytes.len() - 1;
    match token.kind {
        Kind::Span => has_none_of(bytes, markers(depth)),
        Kind::Entity => bytes[0] == AMP && is_first_of(bytes, set![SEMICOLON], last),
        Kind::Error => markers(depth).contains(bytes[0]),
        Kind::PI => {
            &&& seq![LT, QUESTION].is_prefix_of(bytes)
            &&& is_first_match(bytes.skip(2), pi_close(), bytes.len() - 4)
        },
        Kind::Comment => {
            &&& seq![LT, BANG, DASH, DASH].is_prefix_of(bytes)
            &&& is_first_match(bytes.skip(4), comment_close(), bytes.len() - 7)
        },
        Kind::Decl => {
            &&& seq![LT, BANG].is_prefix_of(bytes)
            &&& is_upper(bytes[2])
            &&& is_first_of(bytes, set![GT, BRACKET_OPEN], last)
        },
        Kind::DeclEnd => {
            &&& depth > 0
            &&& bytes[0] == BRACKET_CLOSE
            &&& is_first_of(bytes, set![GT], last)
        },
        Kind::Element => {
            &&& bytes[0] == LT
            &&& bytes[1] != BANG && bytes[1] != QUESTION && bytes[1] != SLASH
            &&& is_first_of(bytes, set![GT], last)
        },
        Kind::ElementEnd => {
            &&& seq![LT, SLASH].is_prefix_of(bytes)
            &&& is_first_of(bytes, set![GT], last)
        },
    }
}

/// Every token is well delimited, and text runs up to a marker or to the
/// end of the input.
pub proof fn law_tokens_are_well_delimited(c: Cursor)
    ensures
        step(c) matches Some((token, behind)) ==> {
            &&& well_delimited(token, c.depth)
            &&& token.kind is Span && behind.rest.len() > 0 ==> markers(c.depth).contains(
                behind.rest[0],
            )
        },
{
    lemma_step(c);
    if c.rest.len() > 0 {
        let (token, behind) = step(c).unwrap();
        let bytes = token.bytes;
        lemma_first_of(c.rest, markers(c.depth));
        lemma_first_of(c.rest, set![SEMICOLON]);
        lemma_first_of(c.rest, set![GT]);
        assert forall|j: int| 0 <= j < bytes.len() implies bytes[j] == c.rest[j] by {}
        if c.rest.len() >= 2 {
            let body = c.rest.skip(2);
            lemma_first_of(body, set![GT, BRACKET_OPEN]);
            lemma_first_match(body, pi_close());
            if token.kind is PI {
                let at = bytes.len() - 4;
                assert(bytes.skip(2).subrange(at, at + 2) =~= body.subrange(at, at + 2));
                assert forall|j: int| 0 <= j < at implies !matches_at(
                    bytes.skip(2),
                    pi_close(),
                    j,
                ) by {
                    assert(!matches_at(body, pi_close(), j));
                    assert(bytes.skip(2).subrange(j, j + 2) =~= body.subrange(j, j + 2));
                }
            }
            if token.kind is Decl {
                assert forall|j: int| 2 <= j < bytes.len() implies bytes[j] == body[j - 2] by {}
            }
        }
        if c.rest.len() >= 4 {
            let body = c.rest.skip(4);
            lemma_first_match(body, comment_close());
            if token.kind is Comment {
                let at = bytes.len() - 7;
                assert(bytes.skip(4).subrange(at, at + 3) =~= body.subrange(at, at + 3));
                assert forall|j: int| 0 <= j < at implies !matches_at(
                    bytes.skip(4),
                    comment_close(),
                    j,
                ) by {
                    assert(!matches_at(body, comment_close(), j));
                    assert(bytes.skip(4).subrange(j, j + 3) =~= body.subrange(j, j + 3));
                }
            }
        }
    }
}

/// Text between two pieces of markup is one token: the token behind a
/// `Span` is never a `Span`.
pub proof fn law_spans_are_never_adjacent(c: Cursor)
    ensures
        step(c) matches Some((token, behind)) ==> (token.kind is Span && step(behind) is Some
            ==> !(step(behind).unwrap().0.kind is Span)),
{
    lemma_step(c);
    law_tokens_are_well_delimited(c);
    if c.rest.len() > 0 {
        let (token, behind) = step(c).unwrap();
        if token.kind is Span && behind.rest.len() > 0 {
            lemma_first_of(c.rest, markers(c.depth));
            lemma_first_of_is(behind.rest, markers(behind.depth), 0);
        }
    }
}

/// The depth counts the internal subsets that were opened: a step raises
/// it by one where its token is a declaration that ends in `[`, and leaves
/// it as it is everywhere else.
pub proof fn law_depth_counts_opened_subsets(c: Cursor)
    ensures
        step(c) matches Some((token, behind)) ==> behind.depth == if token.kind is Decl
            && token.bytes.last() == BRACKET_OPEN {
            c.depth + 1
        } else {
            c.depth
        },
{
    lemma_step(c);
    if c.rest.len() >= 2 {
        lemma_first_of(c.rest.skip(2), set![GT, BRACKET_OPEN]);
    }
}

/// Taking the first step and then `n` more is taking `n + 1` steps.
proof fn lemma_after_first_step(c: Cursor, n: nat)
    requires
        step(c) is Some,
    ensures
        after(c, n + 1) == after(step(c).unwrap().1, n),
    decreases n,
{
    if n == 0 {
        assert(after(c, 0) == c);
    } else {
        lemma_after_first_step(c, (n - 1) as nat);
    }
}

/// The stream is the run: its token at `i` is the token that the step
/// after `i` steps yields.
pub proof fn law_stream_follows_steps(c: Cursor, i: nat)
    requires
        i < stream(c).len(),
    ensures
        step(after(c, i)) matches Some((token, _)) && token == stream(c)[i as int],
    decreases i,
{
    lemma_step(c);
    if i > 0 {
        law_stream_follows_steps(step(c).unwrap().1, (i - 1) as nat);
        lemma_after_first_step(c, (i - 1) as nat);
    }
}

/// The stream is the whole run: after as many steps as it has tokens,
/// nothing is left.
pub proof fn law_stream_ends_exhausted(c: Cursor)
    ensures
        after(c, stream(c).len()).rest.len() == 0,
        step(after(c, stream(c).len())) is None,
    decreases c.rest.len(),
{
    lemma_step(c);
    if let Some((_, behind)) = step(c) {
        law_stream_ends_exhausted(behind);
        lemma_after_first_step(c, stream(behind).len());
    }
}

} // verus!
