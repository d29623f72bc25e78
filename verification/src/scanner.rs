//! The lexical scanner: source bytes to tokens, one at a time.

use vstd::prelude::*;
use vstd::slice::slice_subrange;
use vstd::string::StringSliceAdditionalSpecFns;
use crate::lexeme::{
    is_alpha_byte, is_digit_byte, is_not_newline, is_not_quote, is_word_byte,
    lemma_newlines_bounds, lemma_run_end_bounds, lemma_word_kind_is_word, lex, lexeme_text,
    newlines, operator_kind, run_end, skip_blank, token_at, word_kind, Lexeme,
};
use crate::token::{Token, TokenType};

verus! {

pub fn is_digit(possible_digit: u8) -> (r: bool)
    ensures
        r == is_digit_byte(possible_digit),
{
    '0' as u8 <= possible_digit && possible_digit <= '9' as u8
}

pub fn is_alpha(possible_alpha: u8) -> (r: bool)
    ensures
        r == is_alpha_byte(possible_alpha),
{
    ('a' as u8 <= possible_alpha && possible_alpha <= 'z' as u8) || ('A' as u8 <= possible_alpha
        && possible_alpha <= 'Z' as u8) || possible_alpha == '_' as u8
}

fn bytes_equal(a: &[u8], b: &[u8]) -> (r: bool)
    ensures
        r == (a@ == b@),
{
    if a.len() != b.len() {
        return false;
    }
    let mut i: usize = 0;
    while i < a.len()
        invariant
            i <= a@.len(),
            a@.len() == b@.len(),
            a@.take(i as int) == b@.take(i as int),
        decreases a@.len() - i,
    {
        if a[i] != b[i] {
            return false;
        }
        assert(a@.take(i + 1) == a@.take(i as int).push(a@[i as int]));
        assert(b@.take(i + 1) == b@.take(i as int).push(b@[i as int]));
        i += 1;
    }
    assert(a@.take(a@.len() as int) == a@);
    assert(b@.take(b@.len() as int) == b@);
    true
}

/// Makes scanners.
pub struct Scanner {}

impl Scanner {
    pub fn new() -> Scanner {
        Scanner {  }
    }

    /// Whether `code` is short enough to be scanned: a source of
    /// `usize::MAX` bytes could have more lines than a `usize` counts.
    pub fn can_scan(code: &str) -> (r: bool)
        ensures
            r == (code.spec_bytes().len() < usize::MAX),
    {
        code.as_bytes().len() < usize::MAX
    }

    /// A cursor at the start of `code`, on line 1.
    pub fn scan<'a>(&mut self, code: &'a str) -> (tokens: ScannerIterator<'a>)
        requires
            code.spec_bytes().len() < usize::MAX,
        ensures
            tokens.source() == code.spec_bytes(),
            tokens.position() == 0,
            tokens.line_counter() == 1,
    {
        ScannerIterator { code: code.as_bytes(), start: 0, current: 0, line: 1 }
    }
}

/// A cursor over the source that hands out one token per call of `next`.
/// It only moves forward.
pub struct ScannerIterator<'code> {
    code: &'code [u8],
    start: usize,
    current: usize,
    line: usize,
}

impl<'code> ScannerIterator<'code> {
    #[verifier::type_invariant]
    spec fn inv(self) -> bool {
        &&& self.start <= self.current <= self.code@.len()
        &&& self.code@.len() < usize::MAX
        &&& self.line <= self.current + 1
    }

    /// The bytes being scanned.
    pub closed spec fn source(self) -> Seq<u8> {
        self.code@
    }

    /// The offset of the next byte to read.
    pub closed spec fn position(self) -> int {
        self.current as int
    }

    /// The offset at which the token read last starts.
    pub closed spec fn token_start(self) -> int {
        self.start as int
    }

    /// The line counter: one more than the newlines read so far.
    pub closed spec fn line_counter(self) -> int {
        self.line as int
    }

    spec fn peeked(self) -> Option<u8> {
        if self.current < self.code@.len() {
            Some(self.code@[self.current as int])
        } else {
            None
        }
    }

    spec fn same_but_position(self, before: Self) -> bool {
        &&& self.code == before.code
        &&& self.start == before.start
        &&& self.line == before.line
    }

    fn advance(&mut self) -> (r: Option<u8>)
        ensures
            r == old(self).peeked(),
            final(self).same_but_position(*old(self)),
            final(self).current == old(self).current + if r is Some {
                1int
            } else {
                0int
            },
    {
        proof {
            use_type_invariant(&*self);
        }
        if self.current < self.code.len() {
            let c = self.code[self.current];
            self.current += 1;
            Some(c)
        } else {
            None
        }
    }

    fn peek(&self) -> (r: Option<u8>)
        ensures
            r == self.peeked(),
    {
        if !self.is_at_end() {
            Some(self.code[self.current])
        } else {
            None
        }
    }

    fn peek_next(&self) -> (r: Option<u8>)
        ensures
            r == if self.current + 1 < self.code@.len() {
                Some(self.code@[self.current + 1])
            } else {
                None
            },
    {
        proof {
            use_type_invariant(self);
        }
        if self.current + 1 < self.code.len() {
            Some(self.code[self.current + 1])
        } else {
            None
        }
    }

    fn match_char(&mut self, expected: u8) -> (r: bool)
        ensures
            r == (old(self).peeked() == Some(expected)),
            final(self).same_but_position(*old(self)),
            final(self).current == old(self).current + if r {
                1int
            } else {
                0int
            },
    {
        if self.is_at_end() {
            return false;
        }
        match self.peek() {
            Some(c) => {
                if c != expected {
                    return false;
                }
            },
            None => {
                return false;
            },
        }
        self.advance();
        true
    }

    fn is_at_end(&self) -> (r: bool)
        ensures
            r == (self.current >= self.code@.len()),
    {
        self.current >= self.code.len()
    }

    fn build_token(&self, code: &'code [u8], token_type: TokenType) -> (token: Token<'code>)
        ensures
            token.code@ == code@,
            token.line == self.line,
            token.token_type == token_type,
    {
        Token::new(code, self.line, token_type)
    }

    /// The bytes from the start of the token being read up to the cursor.
    fn text(&self) -> (r: &'code [u8])
        ensures
            r@ == self.code@.subrange(self.start as int, self.current as int),
    {
        proof {
            use_type_invariant(self);
        }
        slice_subrange(self.code, self.start, self.current)
    }

    fn string(&mut self) -> (token: Token<'code>)
        requires
            old(self).start < old(self).code@.len(),
            old(self).code@[old(self).start as int] == '"' as u8,
            old(self).current == old(self).start + 1,
        ensures
            final(self).code == old(self).code,
            final(self).start == old(self).start,
            final(self).produced(
                token,
                token_at(old(self).code@, old(self).start as int, old(self).line as int),
            ),
    {
        let ghost s = self.code@;
        let ghost first = self.current as int;
        let ghost line = self.line as int;
        loop
            invariant
                self.code@ == s,
                self.code == old(self).code,
                self.start == old(self).start,
                first == self.start + 1,
                first <= self.current <= s.len(),
                line == old(self).line,
                self.line == line + newlines(s, first, self.current as int),
                run_end(s, self.current as int, |b: u8| is_not_quote(b)) == run_end(
                    s,
                    first,
                    |b: u8| is_not_quote(b),
                ),
            ensures
                self.current == run_end(s, first, |b: u8| is_not_quote(b)),
            decreases s.len() - self.current,
        {
            proof {
                use_type_invariant(&*self);
            }
            match self.peek() {
                None => {
                    break ;
                },
                Some(c) => {
                    if c == '"' as u8 {
                        break ;
                    }
                    self.advance();
                    if c == '\n' as u8 {
                        proof {
                            lemma_newlines_bounds(s, first, self.current as int);
                        }
                        self.line += 1;
                    }
                },
            }
        }
        if self.is_at_end() {
            return self.build_token("Unterminated string.".as_bytes(), TokenType::Error);
        }
        // Closing quote

        self.advance();
        self.build_token(self.text(), TokenType::String)
    }

    /// Moves the cursor to the end of the run of digits it stands in.
    fn digits(&mut self)
        ensures
            final(self).same_but_position(*old(self)),
            final(self).current == run_end(
                old(self).code@,
                old(self).current as int,
                |b: u8| is_digit_byte(b),
            ),
    {
        let ghost s = self.code@;
        let ghost from = self.current as int;
        proof {
            use_type_invariant(&*self);
        }
        loop
            invariant
                self.same_but_position(*old(self)),
                self.code@ == s,
                from == old(self).current,
                from <= self.current <= s.len(),
                run_end(s, self.current as int, |b: u8| is_digit_byte(b)) == run_end(
                    s,
                    from,
                    |b: u8| is_digit_byte(b),
                ),
            ensures
                self.current == run_end(s, from, |b: u8| is_digit_byte(b)),
            decreases s.len() - self.current,
        {
            match self.peek() {
                Some(c) => {
                    if !is_digit(c) {
                        break ;
                    }
                    self.advance();
                },
                None => {
                    break ;
                },
            }
        }
    }

    fn number(&mut self) -> (token: Token<'code>)
        requires
            old(self).start < old(self).code@.len(),
            is_digit_byte(old(self).code@[old(self).start as int]),
            old(self).current == old(self).start + 1,
        ensures
            final(self).code == old(self).code,
            final(self).produced(
                token,
                token_at(old(self).code@, old(self).start as int, old(self).line as int),
            ),
    {
        let ghost s = self.code@;
        assert(run_end(s, self.start as int, |b: u8| is_digit_byte(b)) == run_end(
            s,
            self.current as int,
            |b: u8| is_digit_byte(b),
        ));
        self.digits();
        let fraction = match (self.peek(), self.peek_next()) {
            (Some(dot), Some(digit)) => dot == '.' as u8 && is_digit(digit),
            _ => false,
        };
        if fraction {
            self.advance();
            self.digits();
        }
        proof {
            assert(operator_kind(s[self.start as int], true) is None);
            assert(operator_kind(s[self.start as int], false) is None);
        }
        self.build_token(self.text(), TokenType::Number)
    }

    fn identifier_or_keyword(&mut self) -> (token: Token<'code>)
        requires
            old(self).start < old(self).code@.len(),
            is_alpha_byte(old(self).code@[old(self).start as int]),
            old(self).current == old(self).start + 1,
        ensures
            final(self).code == old(self).code,
            final(self).produced(
                token,
                token_at(old(self).code@, old(self).start as int, old(self).line as int),
            ),
    {
        let ghost s = self.code@;
        let ghost from = self.start as int;
        assert(run_end(s, from, |b: u8| is_word_byte(b)) == run_end(
            s,
            from + 1,
            |b: u8| is_word_byte(b),
        ));
        loop
            invariant
                self.same_but_position(*old(self)),
                self.code@ == s,
                from == self.start,
                from < self.current <= s.len(),
                run_end(s, self.current as int, |b: u8| is_word_byte(b)) == run_end(
                    s,
                    from,
                    |b: u8| is_word_byte(b),
                ),
            ensures
                self.current == run_end(s, from, |b: u8| is_word_byte(b)),
            decreases s.len() - self.current,
        {
            match self.peek() {
                Some(c) => {
                    if !(is_alpha(c) || is_digit(c)) {
                        break ;
                    }
                    self.advance();
                },
                None => {
                    break ;
                },
            }
        }
        proof {
            assert(operator_kind(s[from], true) is None);
            assert(operator_kind(s[from], false) is None);
            lemma_word_kind_is_word(s.subrange(from, self.current as int));
        }
        self.build_identifier_or_keyword_token()
    }

    fn build_identifier_or_keyword_token(&self) -> (token: Token<'code>)
        requires
            self.start < self.current,
        ensures
            token.code@ == self.code@.subrange(self.start as int, self.current as int),
            token.line == self.line,
            token.token_type == word_kind(
                self.code@.subrange(self.start as int, self.current as int),
            ),
    {
        proof {
            use_type_invariant(self);
            lemma_keyword_bytes();
        }
        let ghost word = self.code@.subrange(self.start as int, self.current as int);
        let first = self.code[self.start];
        assert(first == word[0]);
        let long = self.current - self.start > 1;
        if first == 'a' as u8 {
            proof {
                lemma_keyword_rest(word, "and".spec_bytes(), 1);
            }
            self.check_keyword(1, "nd", TokenType::And)
        } else if first == 'c' as u8 {
            proof {
                lemma_keyword_rest(word, "class".spec_bytes(), 1);
            }
            self.check_keyword(1, "lass", TokenType::Class)
        } else if first == 'e' as u8 {
            proof {
                lemma_keyword_rest(word, "else".spec_bytes(), 1);
            }
            self.check_keyword(1, "lse", TokenType::Else)
        } else if first == 'i' as u8 {
            proof {
                lemma_keyword_rest(word, "if".spec_bytes(), 1);
            }
            self.check_keyword(1, "f", TokenType::If)
        } else if first == 'n' as u8 {
            proof {
                lemma_keyword_rest(word, "nil".spec_bytes(), 1);
            }
            self.check_keyword(1, "il", TokenType::Nil)
        } else if first == 'o' as u8 {
            proof {
                lemma_keyword_rest(word, "or".spec_bytes(), 1);
            }
            self.check_keyword(1, "r", TokenType::Or)
        } else if first == 'p' as u8 {
            proof {
                lemma_keyword_rest(word, "print".spec_bytes(), 1);
            }
            self.check_keyword(1, "rint", TokenType::Print)
        } else if first == 'r' as u8 {
            proof {
                lemma_keyword_rest(word, "return".spec_bytes(), 1);
            }
            self.check_keyword(1, "eturn", TokenType::Return)
        } else if first == 's' as u8 {
            proof {
                lemma_keyword_rest(word, "super".spec_bytes(), 1);
            }
            self.check_keyword(1, "uper", TokenType::Super)
        } else if first == 'v' as u8 {
            proof {
                lemma_keyword_rest(word, "var".spec_bytes(), 1);
            }
            self.check_keyword(1, "ar", TokenType::Var)
        } else if first == 'w' as u8 {
            proof {
                lemma_keyword_rest(word, "while".spec_bytes(), 1);
            }
            self.check_keyword(1, "hile", TokenType::While)
        } else if first == 'f' as u8 && long {
            let second = self.code[self.start + 1];
            assert(second == word[1]);
            if second == 'a' as u8 {
                proof {
                lemma_keyword_rest(word, "false".spec_bytes(), 2);
            }
            self.check_keyword(2, "lse", TokenType::False)
            } else if second == 'o' as u8 {
                proof {
                lemma_keyword_rest(word, "for".spec_bytes(), 2);
            }
            self.check_keyword(2, "r", TokenType::For)
            } else if second == 'u' as u8 {
                proof {
                lemma_keyword_rest(word, "fun".spec_bytes(), 2);
            }
            self.check_keyword(2, "n", TokenType::Fun)
            } else {
                self.build_identifier_token()
            }
        } else if first == 't' as u8 && long {
            let second = self.code[self.start + 1];
            assert(second == word[1]);
            if second == 'h' as u8 {
                proof {
                lemma_keyword_rest(word, "this".spec_bytes(), 2);
            }
            self.check_keyword(2, "is", TokenType::This)
            } else if second == 'r' as u8 {
                proof {
                lemma_keyword_rest(word, "true".spec_bytes(), 2);
            }
            self.check_keyword(2, "ue", TokenType::True)
            } else {
                self.build_identifier_token()
            }
        } else {
            self.build_identifier_token()
        }
    }

    fn build_identifier_token(&self) -> (token: Token<'code>)
        ensures
            token.code@ == self.code@.subrange(self.start as int, self.current as int),
            token.line == self.line,
            token.token_type == TokenType::Identifier,
    {
        self.build_token(self.text(), TokenType::Identifier)
    }

    /// The token of kind `token_type` if the word being read, from its
    /// byte `start` on, is `rest`; an identifier if not.
    fn check_keyword(&self, start: usize, rest: &str, token_type: TokenType) -> (token: Token<
        'code,
    >)
        requires
            self.start + start <= self.current,
        ensures
            token.code@ == self.code@.subrange(self.start as int, self.current as int),
            token.line == self.line,
            token.token_type == if self.code@.subrange(
                self.start as int,
                self.current as int,
            ).skip(start as int) == rest.spec_bytes() {
                token_type
            } else {
                TokenType::Identifier
            },
    {
        proof {
            use_type_invariant(self);
        }
        let tail = slice_subrange(self.code, self.start + start, self.current);
        assert(tail@ == self.code@.subrange(self.start as int, self.current as int).skip(
            start as int,
        ));
        if bytes_equal(tail, rest.as_bytes()) {
            self.build_token(self.text(), token_type)
        } else {
            self.build_identifier_token()
        }
    }

    fn skip_whitespace(&mut self)
        ensures
            final(self).code == old(self).code,
            final(self).start == old(self).start,
            (final(self).current as int, final(self).line as int) == skip_blank(
                old(self).code@,
                old(self).current as int,
                old(self).line as int,
            ),
    {
        let ghost s = self.code@;
        proof {
            use_type_invariant(&*self);
        }
        loop
            invariant
                self.code == old(self).code,
                self.code@ == s,
                self.start == old(self).start,
                self.current <= s.len(),
                skip_blank(s, self.current as int, self.line as int) == skip_blank(
                    s,
                    old(self).current as int,
                    old(self).line as int,
                ),
            ensures
                (self.current as int, self.line as int) == skip_blank(
                    s,
                    old(self).current as int,
                    old(self).line as int,
                ),
            decreases s.len() - self.current,
        {
            proof {
                use_type_invariant(&*self);
            }
            match self.peek() {
                Some(c) => {
                    if c == ' ' as u8 || c == '\r' as u8 || c == '\t' as u8 {
                        self.advance();
                    } else if c == '\n' as u8 {
                        self.advance();
                        self.line += 1;
                    } else if c == '/' as u8 {
                        match self.peek_next() {
                            Some(d) => {
                                if d == '/' as u8 {
                                    // Started a comment
                                    self.comment();
                                } else {
                                    break ;
                                }
                            },
                            None => {
                                break ;
                            },
                        }
                    } else {
                        break ;
                    }
                },
                None => {
                    break ;
                },
            }
        }
    }

    /// Moves the cursor from the two slashes that open a comment to the
    /// end of the line.
    fn comment(&mut self)
        requires
            old(self).current + 1 < old(self).code@.len(),
            old(self).code@[old(self).current as int] == '/' as u8,
            old(self).code@[old(self).current + 1] == '/' as u8,
        ensures
            final(self).same_but_position(*old(self)),
            final(self).current == run_end(
                old(self).code@,
                old(self).current + 2,
                |b: u8| is_not_newline(b),
            ),
            old(self).current + 2 <= final(self).current <= old(self).code@.len(),
    {
        let ghost s = self.code@;
        let ghost from = self.current as int;
        proof {
            lemma_run_end_bounds(s, from + 2, |b: u8| is_not_newline(b));
            assert(run_end(s, from + 1, |b: u8| is_not_newline(b)) == run_end(
                s,
                from + 2,
                |b: u8| is_not_newline(b),
            ));
            assert(run_end(s, from, |b: u8| is_not_newline(b)) == run_end(
                s,
                from + 1,
                |b: u8| is_not_newline(b),
            ));
        }
        loop
            invariant
                self.same_but_position(*old(self)),
                self.code@ == s,
                from == old(self).current,
                from <= self.current <= s.len(),
                run_end(s, self.current as int, |b: u8| is_not_newline(b)) == run_end(
                    s,
                    from + 2,
                    |b: u8| is_not_newline(b),
                ),
            ensures
                self.current == run_end(s, from + 2, |b: u8| is_not_newline(b)),
            decreases s.len() - self.current,
        {
            match self.peek() {
                Some(c) => {
                    if c == '\n' as u8 {
                        break ;
                    }
                    self.advance();
                },
                None => {
                    break ;
                },
            }
        }
    }

    /// Reads the next token. At the end of the source every call returns
    /// an `Eof` token.
    pub fn next(&mut self) -> (token: Token<'code>)
        ensures
            final(self).source() == old(self).source(),
            token.token_type == old(self).upcoming().kind,
            token.line == old(self).upcoming().line,
            token.code@ == lexeme_text(old(self).source(), old(self).upcoming()),
            final(self).token_start() == old(self).upcoming().start,
            final(self).position() == old(self).upcoming().end,
            final(self).line_counter() == old(self).upcoming().line,
    {
        self.skip_whitespace();
        proof {
            use_type_invariant(&*self);
        }
        self.start = self.current;
        match self.advance() {
            None => {
                self.build_token(self.text(), TokenType::Eof)
            },
            Some(c) => {
                if c == '(' as u8 {
                    self.build_token(self.text(), TokenType::LeftParen)
                } else if c == ')' as u8 {
                    self.build_token(self.text(), TokenType::RightParen)
                } else if c == '{' as u8 {
                    self.build_token(self.text(), TokenType::LeftBrace)
                } else if c == '}' as u8 {
                    self.build_token(self.text(), TokenType::RightBrace)
                } else if c == ';' as u8 {
                    self.build_token(self.text(), TokenType::Semicolon)
                } else if c == ',' as u8 {
                    self.build_token(self.text(), TokenType::Comma)
                } else if c == '.' as u8 {
                    self.build_token(self.text(), TokenType::Dot)
                } else if c == '-' as u8 {
                    self.build_token(self.text(), TokenType::Minus)
                } else if c == '+' as u8 {
                    self.build_token(self.text(), TokenType::Plus)
                } else if c == '/' as u8 {
                    self.build_token(self.text(), TokenType::Slash)
                } else if c == '*' as u8 {
                    self.build_token(self.text(), TokenType::Star)
                } else if c == '!' as u8 {
                    if self.match_char('=' as u8) {
                        self.build_token(self.text(), TokenType::BangEqual)
                    } else {
                        self.build_token(self.text(), TokenType::Bang)
                    }
                } else if c == '=' as u8 {
                    if self.match_char('=' as u8) {
                        self.build_token(self.text(), TokenType::EqualEqual)
                    } else {
                        self.build_token(self.text(), TokenType::Equal)
                    }
                } else if c == '<' as u8 {
                    if self.match_char('=' as u8) {
                        self.build_token(self.text(), TokenType::LessEqual)
                    } else {
                        self.build_token(self.text(), TokenType::Less)
                    }
                } else if c == '>' as u8 {
                    if self.match_char('=' as u8) {
                        self.build_token(self.text(), TokenType::GreaterEqual)
                    } else {
                        self.build_token(self.text(), TokenType::Greater)
                    }
                } else if c == '"' as u8 {
                    self.string()
                } else if is_alpha(c) {
                    self.identifier_or_keyword()
                } else if is_digit(c) {
                    self.number()
                } else {
                    self.build_token("Unexpected character.".as_bytes(), TokenType::Error)
                }
            },
        }
    }

    /// The token that the next call of `next` returns.
    pub open spec fn upcoming(self) -> Lexeme {
        lex(self.source(), self.position(), self.line_counter())
    }

    /// What `next` states of the token it returns and of the cursor after
    /// it, given the token that the source holds there.
    spec fn produced(self, token: Token<'code>, lexeme: Lexeme) -> bool {
        &&& token.token_type == lexeme.kind
        &&& token.line == lexeme.line
        &&& token.code@ == lexeme_text(self.code@, lexeme)
        &&& self.start == lexeme.start
        &&& self.current == lexeme.end
        &&& self.line == lexeme.line
    }
}

/// What the scanner's keyword table rests on: the length and the leading
/// bytes of each keyword, and the fragment that is left of it after them.
proof fn lemma_keyword_bytes()
    ensures
        "and".spec_bytes().len() == 3,
        "and".spec_bytes()[0] == 'a' as u8,
        "and".spec_bytes().skip(1) == "nd".spec_bytes(),
        "class".spec_bytes().len() == 5,
        "class".spec_bytes()[0] == 'c' as u8,
        "class".spec_bytes().skip(1) == "lass".spec_bytes(),
        "else".spec_bytes().len() == 4,
        "else".spec_bytes()[0] == 'e' as u8,
        "else".spec_bytes().skip(1) == "lse".spec_bytes(),
        "false".spec_bytes().len() == 5,
        "false".spec_bytes()[0] == 'f' as u8,
        "false".spec_bytes()[1] == 'a' as u8,
        "false".spec_bytes().skip(2) == "lse".spec_bytes(),
        "for".spec_bytes().len() == 3,
        "for".spec_bytes()[0] == 'f' as u8,
        "for".spec_bytes()[1] == 'o' as u8,
        "for".spec_bytes().skip(2) == "r".spec_bytes(),
        "fun".spec_bytes().len() == 3,
        "fun".spec_bytes()[0] == 'f' as u8,
        "fun".spec_bytes()[1] == 'u' as u8,
        "fun".spec_bytes().skip(2) == "n".spec_bytes(),
        "if".spec_bytes().len() == 2,
        "if".spec_bytes()[0] == 'i' as u8,
        "if".spec_bytes().skip(1) == "f".spec_bytes(),
        "nil".spec_bytes().len() == 3,
        "nil".spec_bytes()[0] == 'n' as u8,
        "nil".spec_bytes().skip(1) == "il".spec_bytes(),
        "or".spec_bytes().len() == 2,
        "or".spec_bytes()[0] == 'o' as u8,
        "or".spec_bytes().skip(1) == "r".spec_bytes(),
        "print".spec_bytes().len() == 5,
        "print".spec_bytes()[0] == 'p' as u8,
        "print".spec_bytes().skip(1) == "rint".spec_bytes(),
        "return".spec_bytes().len() == 6,
        "return".spec_bytes()[0] == 'r' as u8,
        "return".spec_bytes().skip(1) == "eturn".spec_bytes(),
        "super".spec_bytes().len() == 5,
        "super".spec_bytes()[0] == 's' as u8,
        "super".spec_bytes().skip(1) == "uper".spec_bytes(),
        "this".spec_bytes().len() == 4,
        "this".spec_bytes()[0] == 't' as u8,
        "this".spec_bytes()[1] == 'h' as u8,
        "this".spec_bytes().skip(2) == "is".spec_bytes(),
        "true".spec_bytes().len() == 4,
        "true".spec_bytes()[0] == 't' as u8,
        "true".spec_bytes()[1] == 'r' as u8,
        "true".spec_bytes().skip(2) == "ue".spec_bytes(),
        "var".spec_bytes().len() == 3,
        "var".spec_bytes()[0] == 'v' as u8,
        "var".spec_bytes().skip(1) == "ar".spec_bytes(),
        "while".spec_bytes().len() == 5,
        "while".spec_bytes()[0] == 'w' as u8,
        "while".spec_bytes().skip(1) == "hile".spec_bytes(),
{
    reveal_strlit("and");
    vstd::string::is_ascii_spec_bytes("and");
    assert("and".spec_bytes() =~= seq!['a' as u8, 'n' as u8, 'd' as u8]);
    reveal_strlit("nd");
    vstd::string::is_ascii_spec_bytes("nd");
    assert("nd".spec_bytes() =~= seq!['n' as u8, 'd' as u8]);
    assert("and".spec_bytes().skip(1) =~= "nd".spec_bytes());
    reveal_strlit("class");
    vstd::string::is_ascii_spec_bytes("class");
    assert("class".spec_bytes() =~= seq!['c' as u8, 'l' as u8, 'a' as u8, 's' as u8, 's' as u8]);
    reveal_strlit("lass");
    vstd::string::is_ascii_spec_bytes("lass");
    assert("lass".spec_bytes() =~= seq!['l' as u8, 'a' as u8, 's' as u8, 's' as u8]);
    assert("class".spec_bytes().skip(1) =~= "lass".spec_bytes());
    reveal_strlit("else");
    vstd::string::is_ascii_spec_bytes("else");
    assert("else".spec_bytes() =~= seq!['e' as u8, 'l' as u8, 's' as u8, 'e' as u8]);
    reveal_strlit("lse");
    vstd::string::is_ascii_spec_bytes("lse");
    assert("lse".spec_bytes() =~= seq!['l' as u8, 's' as u8, 'e' as u8]);
    assert("else".spec_bytes().skip(1) =~= "lse".spec_bytes());
    reveal_strlit("false");
    vstd::string::is_ascii_spec_bytes("false");
    assert("false".spec_bytes() =~= seq!['f' as u8, 'a' as u8, 'l' as u8, 's' as u8, 'e' as u8]);
    assert("false".spec_bytes().skip(2) =~= "lse".spec_bytes());
    reveal_strlit("for");
    vstd::string::is_ascii_spec_bytes("for");
    assert("for".spec_bytes() =~= seq!['f' as u8, 'o' as u8, 'r' as u8]);
    reveal_strlit("r");
    vstd::string::is_ascii_spec_bytes("r");
    assert("r".spec_bytes() =~= seq!['r' as u8]);
    assert("for".spec_bytes().skip(2) =~= "r".spec_bytes());
    reveal_strlit("fun");
    vstd::string::is_ascii_spec_bytes("fun");
    assert("fun".spec_bytes() =~= seq!['f' as u8, 'u' as u8, 'n' as u8]);
    reveal_strlit("n");
    vstd::string::is_ascii_spec_bytes("n");
    assert("n".spec_bytes() =~= seq!['n' as u8]);
    assert("fun".spec_bytes().skip(2) =~= "n".spec_bytes());
    reveal_strlit("if");
    vstd::string::is_ascii_spec_bytes("if");
    assert("if".spec_bytes() =~= seq!['i' as u8, 'f' as u8]);
    reveal_strlit("f");
    vstd::string::is_ascii_spec_bytes("f");
    assert("f".spec_bytes() =~= seq!['f' as u8]);
    assert("if".spec_bytes().skip(1) =~= "f".spec_bytes());
    reveal_strlit("nil");
    vstd::string::is_ascii_spec_bytes("nil");
    assert("nil".spec_bytes() =~= seq!['n' as u8, 'i' as u8, 'l' as u8]);
    reveal_strlit("il");
    vstd::string::is_ascii_spec_bytes("il");
    assert("il".spec_bytes() =~= seq!['i' as u8, 'l' as u8]);
    assert("nil".spec_bytes().skip(1) =~= "il".spec_bytes());
    reveal_strlit("or");
    vstd::string::is_ascii_spec_bytes("or");
    assert("or".spec_bytes() =~= seq!['o' as u8, 'r' as u8]);
    assert("or".spec_bytes().skip(1) =~= "r".spec_bytes());
    reveal_strlit("print");
    vstd::string::is_ascii_spec_bytes("print");
    assert("print".spec_bytes() =~= seq!['p' as u8, 'r' as u8, 'i' as u8, 'n' as u8, 't' as u8]);
    reveal_strlit("rint");
    vstd::string::is_ascii_spec_bytes("rint");
    assert("rint".spec_bytes() =~= seq!['r' as u8, 'i' as u8, 'n' as u8, 't' as u8]);
    assert("print".spec_bytes().skip(1) =~= "rint".spec_bytes());
    reveal_strlit("return");
    vstd::string::is_ascii_spec_bytes("return");
    assert("return".spec_bytes() =~= seq!['r' as u8, 'e' as u8, 't' as u8, 'u' as u8, 'r' as u8, 'n' as u8]);
    reveal_strlit("eturn");
    vstd::string::is_ascii_spec_bytes("eturn");
    assert("eturn".spec_bytes() =~= seq!['e' as u8, 't' as u8, 'u' as u8, 'r' as u8, 'n' as u8]);
    assert("return".spec_bytes().skip(1) =~= "eturn".spec_bytes());
    reveal_strlit("super");
    vstd::string::is_ascii_spec_bytes("super");
    assert("super".spec_bytes() =~= seq!['s' as u8, 'u' as u8, 'p' as u8, 'e' as u8, 'r' as u8]);
    reveal_strlit("uper");
    vstd::string::is_ascii_spec_bytes("uper");
    assert("uper".spec_bytes() =~= seq!['u' as u8, 'p' as u8, 'e' as u8, 'r' as u8]);
    assert("super".spec_bytes().skip(1) =~= "uper".spec_bytes());
    reveal_strlit("this");
    vstd::string::is_ascii_spec_bytes("this");
    assert("this".spec_bytes() =~= seq!['t' as u8, 'h' as u8, 'i' as u8, 's' as u8]);
    reveal_strlit("is");
    vstd::string::is_ascii_spec_bytes("is");
    assert("is".spec_bytes() =~= seq!['i' as u8, 's' as u8]);
    assert("this".spec_bytes().skip(2) =~= "is".spec_bytes());
    reveal_strlit("true");
    vstd::string::is_ascii_spec_bytes("true");
    assert("true".spec_bytes() =~= seq!['t' as u8, 'r' as u8, 'u' as u8, 'e' as u8]);
    reveal_strlit("ue");
    vstd::string::is_ascii_spec_bytes("ue");
    assert("ue".spec_bytes() =~= seq!['u' as u8, 'e' as u8]);
    assert("true".spec_bytes().skip(2) =~= "ue".spec_bytes());
    reveal_strlit("var");
    vstd::string::is_ascii_spec_bytes("var");
    assert("var".spec_bytes() =~= seq!['v' as u8, 'a' as u8, 'r' as u8]);
    reveal_strlit("ar");
    vstd::string::is_ascii_spec_bytes("ar");
    assert("ar".spec_bytes() =~= seq!['a' as u8, 'r' as u8]);
    assert("var".spec_bytes().skip(1) =~= "ar".spec_bytes());
    reveal_strlit("while");
    vstd::string::is_ascii_spec_bytes("while");
    assert("while".spec_bytes() =~= seq!['w' as u8, 'h' as u8, 'i' as u8, 'l' as u8, 'e' as u8]);
    reveal_strlit("hile");
    vstd::string::is_ascii_spec_bytes("hile");
    assert("hile".spec_bytes() =~= seq!['h' as u8, 'i' as u8, 'l' as u8, 'e' as u8]);
    assert("while".spec_bytes().skip(1) =~= "hile".spec_bytes());
}

/// A word that agrees with a keyword on the first `k` bytes is that
/// keyword exactly if the rest of it is the rest of the keyword.
proof fn lemma_keyword_rest(word: Seq<u8>, keyword: Seq<u8>, k: int)
    requires
        0 <= k <= keyword.len(),
        k <= word.len(),
        forall|i: int| 0 <= i < k ==> word[i] == keyword[i],
    ensures
        (word == keyword) <==> (word.skip(k) == keyword.skip(k)),
{
    if word.skip(k) == keyword.skip(k) {
        assert(word.len() == keyword.len()) by {
            assert(word.skip(k).len() == word.len() - k);
            assert(keyword.skip(k).len() == keyword.len() - k);
        }
        assert forall|i: int| 0 <= i < word.len() implies word[i] == keyword[i] by {
            if i >= k {
                assert(word.skip(k)[i - k] == word[i]);
                assert(keyword.skip(k)[i - k] == keyword[i]);
            }
        }
        assert(word =~= keyword);
    }
}

} // verus!
