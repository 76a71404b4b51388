use xtoken::{Token, Tokenizer};

fn span<'a>(token: &Token<'a>) -> &'a [u8] {
    match *token {
        Token::Span(s)
        | Token::Entity(s)
        | Token::Error(s)
        | Token::PI(s)
        | Token::Comment(s)
        | Token::Decl(s)
        | Token::DeclEnd(s)
        | Token::Element(s)
        | Token::ElementEnd(s) => s,
    }
}

fn is_error(token: &Token<'_>) -> bool {
    matches!(token, Token::Error(_))
}

const SAMPLES: [&[u8]; 16] = [
    b"",
    b"plain",
    b"<x>Hello World!</x>",
    b"<?xml version='1.0'?>\n<!-- c -->\n<a b='c'>d &amp; e</a>\n",
    b"<!DOCTYPE x [\n<!ELEMENT x EMPTY>\n<!-- in -->\n]>\n<x/>",
    b"<!DOCTYPE x [ ] ] ]> ] >",
    b"a < b",
    b"a & b",
    b"<!-- never closed --",
    b"<?never closed?",
    b"<!DOCTYPE never closed",
    b"<![CDATA[ x ]]>",
    b"<!",
    b"<",
    b"]]>",
    b"\xff<\xfe>&\xfd;\x00",
];

#[test]
fn spans_laid_end_to_end_are_the_input() {
    for input in SAMPLES {
        let mut joined: Vec<u8> = Vec::new();
        for token in Tokenizer::new(input).collect() {
            joined.extend_from_slice(span(&token));
        }
        assert_eq!(joined, input);
    }
}

#[test]
fn spans_follow_each_other_in_the_input() {
    for input in SAMPLES {
        let mut offset = 0;
        for token in Tokenizer::new(input).collect() {
            let bytes = span(&token);
            assert_eq!(bytes.as_ptr(), input[offset..].as_ptr());
            offset += bytes.len();
        }
        assert_eq!(offset, input.len());
    }
}

#[test]
fn no_token_is_empty() {
    for input in SAMPLES {
        for token in Tokenizer::new(input).collect() {
            assert!(!span(&token).is_empty());
        }
    }
}

#[test]
fn each_step_leaves_less() {
    for input in SAMPLES {
        let mut t = Tokenizer::new(input);
        let mut left = input.len();
        while let Some(token) = t.next() {
            let taken = span(&token).len();
            assert!(taken <= left);
            assert!(left - taken < left);
            left -= taken;
        }
        assert_eq!(left, 0);
    }
}

#[test]
fn nothing_follows_an_error() {
    for input in SAMPLES {
        let mut t = Tokenizer::new(input);
        let mut consumed = 0;
        while let Some(token) = t.next() {
            consumed += span(&token).len();
            if is_error(&token) {
                assert_eq!(consumed, input.len());
                assert_eq!(t.next(), None);
                assert_eq!(t.next(), None);
                assert_eq!(t.next(), None);
            }
        }
    }
}

#[test]
fn error_is_the_last_token() {
    for input in SAMPLES {
        let tokens = Tokenizer::new(input).collect();
        for (i, token) in tokens.iter().enumerate() {
            if is_error(token) {
                assert_eq!(i + 1, tokens.len());
            }
        }
    }
}

#[test]
fn exhausted_tokenizer_stays_exhausted() {
    for input in SAMPLES {
        let mut t = Tokenizer::new(input);
        while t.next().is_some() {}
        assert_eq!(t.next(), None);
        assert_eq!(t.next(), None);
        assert_eq!(t.collect(), vec![]);
    }
}

#[test]
fn text_between_markup_is_one_token() {
    for input in SAMPLES {
        let tokens = Tokenizer::new(input).collect();
        for pair in tokens.windows(2) {
            assert!(!(matches!(pair[0], Token::Span(_)) && matches!(pair[1], Token::Span(_))));
        }
    }
}

#[test]
fn depth_does_not_fall_back() {
    let input = b"a]<!D[b]c]><!E>d]e]>f]";
    assert_eq!(
        Tokenizer::new(input).collect(),
        vec![
            Token::Span(b"a]"),
            Token::Decl(b"<!D["),
            Token::Span(b"b"),
            Token::DeclEnd(b"]c]>"),
            Token::Decl(b"<!E>"),
            Token::Span(b"d"),
            Token::DeclEnd(b"]e]>"),
            Token::Span(b"f"),
            Token::Error(b"]"),
        ]
    );
}

/// The first index of `bytes` that holds one of `needles`.
fn find(bytes: &[u8], needles: &[u8]) -> Option<usize> {
    bytes.iter().position(|b| needles.contains(b))
}

/// The first index at which `pattern` stands in `bytes`.
fn find_pattern(bytes: &[u8], pattern: &[u8]) -> Option<usize> {
    (0..bytes.len()).find(|&i| bytes[i..].starts_with(pattern))
}

/// The next token by a plain reading of the grammar: its kind as a number,
/// its length, and the depth behind it.
fn expected(rest: &[u8], depth: usize) -> Option<(u8, usize, usize)> {
    const SPAN: u8 = 0;
    const ENTITY: u8 = 1;
    const ERROR: u8 = 2;
    const PI: u8 = 3;
    const COMMENT: u8 = 4;
    const DECL: u8 = 5;
    const DECL_END: u8 = 6;
    const ELEMENT: u8 = 7;
    const ELEMENT_END: u8 = 8;
    if rest.is_empty() {
        return None;
    }
    let markers: &[u8] = if depth == 0 { b"<&" } else { b"<&]" };
    let through = |kind: u8, end: Option<usize>| match end {
        Some(len) => (kind, len, depth),
        None => (ERROR, rest.len(), depth),
    };
    let found = match find(rest, markers) {
        None => (SPAN, rest.len(), depth),
        Some(at) if at > 0 => (SPAN, at, depth),
        Some(_) => match rest[0] {
            b'&' => through(ENTITY, find(rest, b";").map(|i| i + 1)),
            b']' => through(DECL_END, find(rest, b">").map(|i| i + 1)),
            _ => match rest.get(1) {
                None => (ERROR, rest.len(), depth),
                Some(b'?') => through(PI, find_pattern(&rest[2..], b"?>").map(|i| i + 4)),
                Some(b'/') => through(ELEMENT_END, find(rest, b">").map(|i| i + 1)),
                Some(b'!') => {
                    if rest[2..].starts_with(b"--") {
                        through(COMMENT, find_pattern(&rest[4..], b"-->").map(|i| i + 7))
                    } else if rest.len() > 2 && rest[2].is_ascii_uppercase() {
                        match find(&rest[2..], b">[") {
                            Some(i) if rest[2 + i] == b'[' => (DECL, i + 3, depth + 1),
                            Some(i) => (DECL, i + 3, depth),
                            None => (ERROR, rest.len(), depth),
                        }
                    } else {
                        (ERROR, rest.len(), depth)
                    }
                }
                Some(_) => through(ELEMENT, find(rest, b">").map(|i| i + 1)),
            },
        },
    };
    Some(found)
}

fn kind(token: &Token<'_>) -> u8 {
    match token {
        Token::Span(_) => 0,
        Token::Entity(_) => 1,
        Token::Error(_) => 2,
        Token::PI(_) => 3,
        Token::Comment(_) => 4,
        Token::Decl(_) => 5,
        Token::DeclEnd(_) => 6,
        Token::Element(_) => 7,
        Token::ElementEnd(_) => 8,
    }
}

fn check_against_the_grammar(input: &[u8]) {
    let mut t = Tokenizer::new(input);
    let mut offset = 0;
    let mut depth = 0;
    loop {
        let token = t.next();
        match expected(&input[offset..], depth) {
            None => {
                assert_eq!(token, None);
                assert_eq!(offset, input.len());
                return;
            }
            Some((want, len, behind)) => {
                let token = token.expect("a token");
                assert_eq!(kind(&token), want, "kind at {} of {:?}", offset, input);
                assert_eq!(span(&token), &input[offset..offset + len]);
                assert!(len > 0);
                assert!(behind >= depth);
                offset += len;
                depth = behind;
            }
        }
    }
}

#[test]
fn samples_follow_the_grammar() {
    for input in SAMPLES {
        check_against_the_grammar(input);
    }
}

#[test]
fn every_short_input_follows_the_grammar() {
    let alphabet = b"<>&;!?/-[]Aa";
    let mut input: Vec<u8> = Vec::new();
    for len in 0..=5 {
        let mut digits = vec![0usize; len];
        loop {
            input.clear();
            input.extend(digits.iter().map(|&d| alphabet[d]));
            check_against_the_grammar(&input);
            let mut place = 0;
            while place < len && digits[place] + 1 == alphabet.len() {
                digits[place] = 0;
                place += 1;
            }
            if place == len {
                break;
            }
            digits[place] += 1;
        }
    }
}

#[test]
fn subset_inputs_follow_the_grammar() {
    let alphabet = b"<>&;!-[]A ";
    let prefix = b"<!D[";
    let mut input: Vec<u8> = Vec::new();
    for len in 0..=4 {
        let mut digits = vec![0usize; len];
        loop {
            input.clear();
            input.extend_from_slice(prefix);
            input.extend(digits.iter().map(|&d| alphabet[d]));
            check_against_the_grammar(&input);
            let mut place = 0;
            while place < len && digits[place] + 1 == alphabet.len() {
                digits[place] = 0;
                place += 1;
            }
            if place == len {
                break;
            }
            digits[place] += 1;
        }
    }
}

#[test]
fn long_runs_between_markers() {
    let mut input = vec![b'x'; 10_000];
    input.extend_from_slice(b"<e ");
    input.extend(vec![b'y'; 10_000]);
    input.extend_from_slice(b"><!--");
    input.extend(vec![b'-'; 4_999]);
    input.extend_from_slice(b" -->&");
    input.extend(vec![b'z'; 10_000]);
    let tokens = Tokenizer::new(&input).collect();
    assert_eq!(tokens.len(), 4);
    assert_eq!(tokens[0], Token::Span(&input[..10_000]));
    assert_eq!(tokens[1], Token::Element(&input[10_000..20_004]));
    assert_eq!(tokens[2], Token::Comment(&input[20_004..25_011]));
    assert_eq!(tokens[3], Token::Error(&input[25_011..]));
    check_against_the_grammar(&input);
}
