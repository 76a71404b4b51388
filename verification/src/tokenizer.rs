//! The tokenizer: a cursor over the input that hands out one token per call.
use vstd::prelude::*;
use crate::bytes::{
    comment_close, pi_close, AMP, BANG, BRACKET_CLOSE, BRACKET_OPEN, DASH, GT, LT, QUESTION,
    SEMICOLON, SLASH, UPPER_A, UPPER_Z,
};
use crate::grammar;
use crate::grammar::Cursor;
use crate::laws::law_partition;
use crate::search::{lemma_first_match_is, matches_at};
use crate::token::{lexemes, Token};

verus! {

/// A cursor over a byte slice. [`Tokenizer::next`] hands out the tokens of
/// the slice one by one, front to back.
pub struct Tokenizer<'a> {
    rest: &'a [u8],
    depth: usize,
}

impl<'a> View for Tokenizer<'a> {
    type V = Cursor;

    closed spec fn view(&self) -> Cursor {
        Cursor { rest: self.rest@, depth: self.depth as nat }
    }
}

impl<'a> Tokenizer<'a> {
    /// The depth grows by one with a token of four bytes or more, so that
    /// depth and remainder together never exceed the length of the input.
    #[verifier::type_invariant]
    spec fn fits(self) -> bool {
        self.depth + self.rest@.len() <= usize::MAX
    }

    /// A tokenizer at the start of `bytes`, outside any internal subset.
    pub fn new(bytes: &'a [u8]) -> (tokenizer: Self)
        ensures
            tokenizer@ == (Cursor { rest: bytes@, depth: 0 }),
    {
        proof {
            vstd::slice::axiom_spec_len(bytes);
        }
        Self { rest: bytes, depth: 0 }
    }

    /// Consumes the first `mid` bytes of the remainder and returns them.
    fn advance(&mut self, mid: usize) -> (span: &'a [u8])
        requires
            mid <= old(self)@.rest.len(),
        ensures
            span@ == old(self)@.rest.take(mid as int),
            final(self)@.rest == old(self)@.rest.skip(mid as int),
            final(self)@.depth == old(self)@.depth,
    {
        proof {
            use_type_invariant(&*self);
        }
        let (span, rest) = self.rest.split_at(mid);
        self.rest = rest;
        span
    }

    /// Consumes all that is left as one `Error` token.
    fn rest_err(&mut self) -> (token: Token<'a>)
        ensures
            (token@, final(self)@) == grammar::give_up(old(self)@),
    {
        let span = self.advance(self.rest.len());
        Token::Error(span)
    }

    /// At `<?`: a processing instruction. Each `?` behind the opening is
    /// tried in turn: the first one with `>` behind it closes the token.
    fn proc(&mut self) -> (token: Token<'a>)
        requires
            old(self)@.rest.len() >= 2,
        ensures
            (token@, final(self)@) == grammar::processing_instruction(old(self)@),
    {
        let len = self.rest.len();
        let ghost body = self.rest@.skip(2);
        let mut at: usize = 2;
        loop
            invariant
                *self == *old(self),
                body == self.rest@.skip(2),
                2 <= at <= len == self.rest@.len(),
                forall|j: int| 0 <= j < at - 2 ==> !matches_at(body, pi_close(), j),
            decreases len - at,
        {
            let tail = &self.rest[at..len];
            if let Some(pos) = memchr::memchr(QUESTION, tail) {
                let mark = at + pos;
                assert forall|j: int| at - 2 <= j < mark - 2 implies !matches_at(
                    body,
                    pi_close(),
                    j,
                ) by {
                    assert(body[j] == tail@[j + 2 - at]);
                }
                if mark + 1 < len {
                    if self.rest[mark + 1] == GT {
                        proof {
                            assert(body.subrange(mark - 2, mark as int) =~= pi_close());
                            lemma_first_match_is(body, pi_close(), mark - 2);
                        }
                        let span = self.advance(mark + 2);
                        return Token::PI(span);
                    }
                    at = mark + 1;
                } else {
                    return self.rest_err();
                }
            } else {
                assert forall|j: int| at - 2 <= j implies !matches_at(body, pi_close(), j) by {
                    if j < body.len() {
                        assert(body[j] == tail@[j + 2 - at]);
                    }
                }
                return self.rest_err();
            }
        }
    }

    /// At `<!--`: a comment. Each `-` behind the opening is tried in turn:
    /// the first one with `->` behind it closes the token. A `--` that no
    /// `>` follows is passed over.
    fn comment(&mut self) -> (token: Token<'a>)
        requires
            old(self)@.rest.len() >= 4,
        ensures
            (token@, final(self)@) == grammar::comment(old(self)@),
    {
        let len = self.rest.len();
        let ghost body = self.rest@.skip(4);
        let mut at: usize = 4;
        loop
            invariant
                *self == *old(self),
                body == self.rest@.skip(4),
                4 <= at <= len == self.rest@.len(),
                forall|j: int| 0 <= j < at - 4 ==> !matches_at(body, comment_close(), j),
            decreases len - at,
        {
            let tail = &self.rest[at..len];
            if let Some(pos) = memchr::memchr(DASH, tail) {
                let mark = at + pos;
                assert forall|j: int| at - 4 <= j < mark - 4 implies !matches_at(
                    body,
                    comment_close(),
                    j,
                ) by {
                    assert(body[j] == tail@[j + 4 - at]);
                }
                if mark + 1 < len {
                    if self.rest[mark + 1] == DASH {
                        if mark + 2 < len && self.rest[mark + 2] == GT {
                            proof {
                                assert(body.subrange(mark - 4, mark - 1) =~= comment_close());
                                lemma_first_match_is(body, comment_close(), mark - 4);
                            }
                            let span = self.advance(mark + 3);
                            return Token::Comment(span);
                        }
                    }
                    at = mark + 1;
                } else {
                    return self.rest_err();
                }
            } else {
                assert forall|j: int| at - 4 <= j implies !matches_at(body, comment_close(), j) by {
                    if j < body.len() {
                        assert(body[j] == tail@[j + 4 - at]);
                    }
                }
                return self.rest_err();
            }
        }
    }

    /// At `<!` and a letter: a declaration. One that ends in `[` opens an
    /// internal subset.
    fn decl(&mut self) -> (token: Token<'a>)
        requires
            old(self)@.rest.len() >= 2,
        ensures
            (token@, final(self)@) == grammar::declaration(old(self)@),
    {
        proof {
            use_type_invariant(&*self);
        }
        let len = self.rest.len();
        if let Some(pos) = memchr::memchr2(GT, BRACKET_OPEN, &self.rest[2..len]) {
            let mid = 2 + pos + 1;
            let opens = self.rest[mid - 1] == BRACKET_OPEN;
            let span = self.advance(mid);
            if opens {
                self.depth += 1;
            }
            Token::Decl(span)
        } else {
            self.rest_err()
        }
    }

    /// At `<!`: a comment where `--` follows, a declaration where an
    /// upper-case letter follows. Anything else is malformed.
    fn builtin(&mut self) -> (token: Token<'a>)
        requires
            old(self)@.rest.len() >= 2,
        ensures
            (token@, final(self)@) == grammar::builtin(old(self)@),
    {
        let len = self.rest.len();
        if len >= 4 && self.rest[2] == DASH && self.rest[3] == DASH {
            self.comment()
        } else if len >= 3 && UPPER_A <= self.rest[2] && self.rest[2] <= UPPER_Z {
            self.decl()
        } else {
            self.rest_err()
        }
    }

    /// At `]`: the end of an internal subset.
    fn decl_end(&mut self) -> (token: Token<'a>)
        ensures
            (token@, final(self)@) == grammar::decl_end(old(self)@),
    {
        proof {
            use_type_invariant(&*self);
        }
        if let Some(pos) = memchr::memchr(GT, self.rest) {
            let span = self.advance(pos + 1);
            Token::DeclEnd(span)
        } else {
            self.rest_err()
        }
    }

    /// At `&`: an entity reference.
    fn entity(&mut self) -> (token: Token<'a>)
        ensures
            (token@, final(self)@) == grammar::entity(old(self)@),
    {
        proof {
            use_type_invariant(&*self);
        }
        if let Some(pos) = memchr::memchr(SEMICOLON, self.rest) {
            let span = self.advance(pos + 1);
            Token::Entity(span)
        } else {
            self.rest_err()
        }
    }

    /// At `<`: a start tag.
    fn element(&mut self) -> (token: Token<'a>)
        ensures
            (token@, final(self)@) == grammar::element(old(self)@),
    {
        proof {
            use_type_invariant(&*self);
        }
        if let Some(pos) = memchr::memchr(GT, self.rest) {
            let span = self.advance(pos + 1);
            Token::Element(span)
        } else {
            self.rest_err()
        }
    }

    /// At `</`: an end tag.
    fn element_end(&mut self) -> (token: Token<'a>)
        ensures
            (token@, final(self)@) == grammar::element_end(old(self)@),
    {
        proof {
            use_type_invariant(&*self);
        }
        if let Some(pos) = memchr::memchr(GT, self.rest) {
            let span = self.advance(pos + 1);
            Token::ElementEnd(span)
        } else {
            self.rest_err()
        }
    }

    /// At `<`: the byte behind it decides which construct starts here.
    fn structure(&mut self) -> (token: Token<'a>)
        requires
            old(self)@.rest.len() >= 1,
        ensures
            (token@, final(self)@) == grammar::structure(old(self)@),
    {
        if self.rest.len() >= 2 {
            match self.rest[1] {
                BANG => self.builtin(),
                QUESTION => self.proc(),
                SLASH => self.element_end(),
                _ => self.element(),
            }
        } else {
            self.rest_err()
        }
    }

    /// The next token, or `None` once the input is used up.
    ///
    /// Text up to the next `<` or `&` (inside an internal subset also `]`)
    /// is a `Span`. At one of these bytes the markup that starts there is
    /// the token; where it is malformed or never closed, all that is left
    /// becomes one `Error` token, and the tokenizer is exhausted.
    ///
    /// A token is never empty, so each call that returns one leaves a
    /// shorter remainder. The depth never shrinks.
    pub fn next(&mut self) -> (token: Option<Token<'a>>)
        ensures
            match grammar::step(old(self)@) {
                Some((lexeme, behind)) => token matches Some(t) && t@ == lexeme && final(self)@
                    == behind,
                None => token is None && final(self)@ == old(self)@,
            },
            token is Some <==> old(self)@.rest.len() > 0,
            token matches Some(t) ==> {
                &&& t@.bytes.len() > 0
                &&& t@.bytes == old(self)@.rest.take(t@.bytes.len() as int)
                &&& final(self)@.rest == old(self)@.rest.skip(t@.bytes.len() as int)
                &&& final(self)@.rest.len() < old(self)@.rest.len()
                &&& t@.kind is Error ==> final(self)@.rest.len() == 0
            },
            final(self)@.depth >= old(self)@.depth,
    {
        proof {
            grammar::lemma_step(self@);
        }
        let found = if self.depth == 0 {
            memchr::memchr2(LT, AMP, self.rest)
        } else {
            memchr::memchr3(LT, AMP, BRACKET_CLOSE, self.rest)
        };
        if let Some(pos) = found {
            if pos > 0 {
                let span = self.advance(pos);
                Some(Token::Span(span))
            } else {
                match self.rest[0] {
                    AMP => Some(self.entity()),
                    LT => Some(self.structure()),
                    _ => Some(self.decl_end()),
                }
            }
        } else {
            let len = self.rest.len();
            if len > 0 {
                let span = self.advance(len);
                Some(Token::Span(span))
            } else {
                None
            }
        }
    }

    /// All the tokens that are left, in order, up to the end of the input.
    pub fn collect(self) -> (tokens: Vec<Token<'a>>)
        ensures
            lexemes(tokens@) == grammar::stream(self@),
            grammar::joined(lexemes(tokens@)) == self@.rest,
    {
        let mut cursor = self;
        let mut tokens: Vec<Token<'a>> = Vec::new();
        loop
            invariant
                grammar::stream(self@) == lexemes(tokens@) + grammar::stream(cursor@),
            decreases cursor@.rest.len(),
        {
            match cursor.next() {
                Some(token) => tokens.push(token),
                None => {
                    proof {
                        law_partition(self@);
                    }
                    return tokens;
                },
            }
        }
    }
}

} // verus!
