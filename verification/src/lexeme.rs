//! Which tokens a source holds: the scanner as a function of the bytes.

use vstd::prelude::*;
use vstd::string::StringSliceAdditionalSpecFns;
use crate::token::TokenType;

verus! {

/// Whether `b` is an ASCII digit.
pub open spec fn is_digit_byte(b: u8) -> bool {
    '0' as u8 <= b <= '9' as u8
}

/// Whether `b` is an ASCII letter or an underscore.
pub open spec fn is_alpha_byte(b: u8) -> bool {
    ||| 'a' as u8 <= b <= 'z' as u8
    ||| 'A' as u8 <= b <= 'Z' as u8
    ||| b == '_' as u8
}

/// Whether `b` can stand in an identifier.
pub open spec fn is_word_byte(b: u8) -> bool {
    is_alpha_byte(b) || is_digit_byte(b)
}

/// Whether `b` is any byte but a newline.
pub open spec fn is_not_newline(b: u8) -> bool {
    b != '\n' as u8
}

/// Whether `b` is any byte but a double quote.
pub open spec fn is_not_quote(b: u8) -> bool {
    b != '"' as u8
}

/// The end of the longest run of bytes that satisfy `member` and start at
/// `pos`.
pub open spec fn run_end(s: Seq<u8>, pos: int, member: spec_fn(u8) -> bool) -> int
    decreases s.len() - pos,
{
    if 0 <= pos < s.len() && member(s[pos]) {
        run_end(s, pos + 1, member)
    } else {
        pos
    }
}

/// The number of newlines in `s` from `from` up to `to`.
pub open spec fn newlines(s: Seq<u8>, from: int, to: int) -> int
    decreases to - from,
{
    if 0 <= from < to <= s.len() {
        newlines(s, from, to - 1) + if s[to - 1] == '\n' as u8 {
            1int
        } else {
            0int
        }
    } else {
        0
    }
}

/// A run ends inside the source, at a byte that is no member, and all
/// bytes before that are members.
pub proof fn lemma_run_end_bounds(s: Seq<u8>, pos: int, member: spec_fn(u8) -> bool)
    requires
        0 <= pos <= s.len(),
    ensures
        pos <= run_end(s, pos, member) <= s.len(),
        run_end(s, pos, member) < s.len() ==> !member(s[run_end(s, pos, member)]),
        forall|i: int| pos <= i < run_end(s, pos, member) ==> member(#[trigger] s[i]),
    decreases s.len() - pos,
{
    if pos < s.len() && member(s[pos]) {
        lemma_run_end_bounds(s, pos + 1, member);
    }
}

/// A stretch holds no more newlines than bytes.
pub proof fn lemma_newlines_bounds(s: Seq<u8>, from: int, to: int)
    requires
        0 <= from <= to <= s.len(),
    ensures
        0 <= newlines(s, from, to) <= to - from,
    decreases to - from,
{
    if from < to {
        lemma_newlines_bounds(s, from, to - 1);
    }
}

/// Where scanning stands after the blanks and comments that start at `pos`:
/// the position, and the line counter raised by the newlines passed.
pub open spec fn skip_blank(s: Seq<u8>, pos: int, line: int) -> (int, int)
    decreases s.len() - pos,
{
    if 0 <= pos < s.len() {
        let c = s[pos];
        if c == ' ' as u8 || c == '\r' as u8 || c == '\t' as u8 {
            skip_blank(s, pos + 1, line)
        } else if c == '\n' as u8 {
            skip_blank(s, pos + 1, line + 1)
        } else if c == '/' as u8 && pos + 1 < s.len() && s[pos + 1] == '/' as u8 {
            proof {
                lemma_run_end_bounds(s, pos + 2, |b: u8| is_not_newline(b));
            }
            skip_blank(s, run_end(s, pos + 2, |b: u8| is_not_newline(b)), line)
        } else {
            (pos, line)
        }
    } else {
        (pos, line)
    }
}

/// Passing blanks moves forward inside the source and raises the line
/// counter by no more than the bytes passed.
pub proof fn lemma_skip_blank_bounds(s: Seq<u8>, pos: int, line: int)
    requires
        0 <= pos <= s.len(),
    ensures
        pos <= skip_blank(s, pos, line).0 <= s.len(),
        line <= skip_blank(s, pos, line).1,
        skip_blank(s, pos, line).1 - line <= skip_blank(s, pos, line).0 - pos,
    decreases s.len() - pos,
{
    if pos < s.len() {
        let c = s[pos];
        if c == ' ' as u8 || c == '\r' as u8 || c == '\t' as u8 {
            lemma_skip_blank_bounds(s, pos + 1, line);
        } else if c == '\n' as u8 {
            lemma_skip_blank_bounds(s, pos + 1, line + 1);
        } else if c == '/' as u8 && pos + 1 < s.len() && s[pos + 1] == '/' as u8 {
            let end = run_end(s, pos + 2, |b: u8| is_not_newline(b));
            lemma_run_end_bounds(s, pos + 2, |b: u8| is_not_newline(b));
            lemma_skip_blank_bounds(s, end, line);
        }
    }
}

/// The token kind of a word: the keyword it spells, else `Identifier`.
pub open spec fn word_kind(word: Seq<u8>) -> TokenType {
    if word == "and".spec_bytes() {
        TokenType::And
    } else if word == "class".spec_bytes() {
        TokenType::Class
    } else if word == "else".spec_bytes() {
        TokenType::Else
    } else if word == "false".spec_bytes() {
        TokenType::False
    } else if word == "for".spec_bytes() {
        TokenType::For
    } else if word == "fun".spec_bytes() {
        TokenType::Fun
    } else if word == "if".spec_bytes() {
        TokenType::If
    } else if word == "nil".spec_bytes() {
        TokenType::Nil
    } else if word == "or".spec_bytes() {
        TokenType::Or
    } else if word == "print".spec_bytes() {
        TokenType::Print
    } else if word == "return".spec_bytes() {
        TokenType::Return
    } else if word == "super".spec_bytes() {
        TokenType::Super
    } else if word == "this".spec_bytes() {
        TokenType::This
    } else if word == "true".spec_bytes() {
        TokenType::True
    } else if word == "var".spec_bytes() {
        TokenType::Var
    } else if word == "while".spec_bytes() {
        TokenType::While
    } else {
        TokenType::Identifier
    }
}

/// A token as the scanner finds it: its kind, the bytes it spans, and the
/// line counter once it has been read.
pub ghost struct Lexeme {
    pub kind: TokenType,
    pub start: int,
    pub end: int,
    pub line: int,
}

/// The kind of a one- or two-byte operator that starts with `c`, where
/// `followed` says whether an `=` comes next; `None` for any other byte.
pub open spec fn operator_kind(c: u8, followed: bool) -> Option<TokenType> {
    if c == '(' as u8 {
        Some(TokenType::LeftParen)
    } else if c == ')' as u8 {
        Some(TokenType::RightParen)
    } else if c == '{' as u8 {
        Some(TokenType::LeftBrace)
    } else if c == '}' as u8 {
        Some(TokenType::RightBrace)
    } else if c == ';' as u8 {
        Some(TokenType::Semicolon)
    } else if c == ',' as u8 {
        Some(TokenType::Comma)
    } else if c == '.' as u8 {
        Some(TokenType::Dot)
    } else if c == '-' as u8 {
        Some(TokenType::Minus)
    } else if c == '+' as u8 {
        Some(TokenType::Plus)
    } else if c == '/' as u8 {
        Some(TokenType::Slash)
    } else if c == '*' as u8 {
        Some(TokenType::Star)
    } else if c == '!' as u8 {
        Some(if followed { TokenType::BangEqual } else { TokenType::Bang })
    } else if c == '=' as u8 {
        Some(if followed { TokenType::EqualEqual } else { TokenType::Equal })
    } else if c == '<' as u8 {
        Some(if followed { TokenType::LessEqual } else { TokenType::Less })
    } else if c == '>' as u8 {
        Some(if followed { TokenType::GreaterEqual } else { TokenType::Greater })
    } else {
        None
    }
}

/// Whether `c` starts an operator that takes a following `=` with it.
pub open spec fn takes_equal(c: u8) -> bool {
    c == '!' as u8 || c == '=' as u8 || c == '<' as u8 || c == '>' as u8
}

/// Where the number that starts at `start` ends: a run of digits, and a
/// fraction if a dot and at least one digit follow.
pub open spec fn number_end(s: Seq<u8>, start: int) -> int {
    let whole = run_end(s, start, |b: u8| is_digit_byte(b));
    if whole + 1 < s.len() && s[whole] == '.' as u8 && is_digit_byte(s[whole + 1]) {
        run_end(s, whole + 1, |b: u8| is_digit_byte(b))
    } else {
        whole
    }
}

/// The token that starts at `start`, a position that no blank or comment
/// starts at, with the line counter at `line`.
pub open spec fn token_at(s: Seq<u8>, start: int, line: int) -> Lexeme {
    if !(0 <= start < s.len()) {
        Lexeme { kind: TokenType::Eof, start, end: start, line }
    } else {
        let c = s[start];
        let followed = start + 1 < s.len() && s[start + 1] == '=' as u8;
        if operator_kind(c, followed) is Some {
            Lexeme {
                kind: operator_kind(c, followed).unwrap(),
                start,
                end: if takes_equal(c) && followed {
                    start + 2
                } else {
                    start + 1
                },
                line,
            }
        } else if c == '"' as u8 {
            let close = run_end(s, start + 1, |b: u8| is_not_quote(b));
            if close < s.len() {
                Lexeme {
                    kind: TokenType::String,
                    start,
                    end: close + 1,
                    line: line + newlines(s, start + 1, close),
                }
            } else {
                Lexeme {
                    kind: TokenType::Error,
                    start,
                    end: close,
                    line: line + newlines(s, start + 1, close),
                }
            }
        } else if is_alpha_byte(c) {
            let end = run_end(s, start, |b: u8| is_word_byte(b));
            Lexeme { kind: word_kind(s.subrange(start, end)), start, end, line }
        } else if is_digit_byte(c) {
            Lexeme { kind: TokenType::Number, start, end: number_end(s, start), line }
        } else {
            Lexeme { kind: TokenType::Error, start, end: start + 1, line }
        }
    }
}

/// The next token when scanning stands at `pos` with the line counter at
/// `line`: blanks and comments are passed, then one token is read.
pub open spec fn lex(s: Seq<u8>, pos: int, line: int) -> Lexeme {
    let (start, at_line) = skip_blank(s, pos, line);
    token_at(s, start, at_line)
}

/// The text that a token carries: the bytes it spans, or for a lexical
/// fault the message that names it.
pub open spec fn lexeme_text(s: Seq<u8>, lexeme: Lexeme) -> Seq<u8> {
    if lexeme.kind == TokenType::Error {
        if 0 <= lexeme.start < s.len() && s[lexeme.start] == '"' as u8 {
            "Unterminated string.".spec_bytes()
        } else {
            "Unexpected character.".spec_bytes()
        }
    } else {
        s.subrange(lexeme.start, lexeme.end)
    }
}

/// A token spans bytes of the source after `pos`; only `Eof` is empty, and
/// it stands at the end. The line counter rises by at most the bytes read.
pub proof fn lemma_lex_bounds(s: Seq<u8>, pos: int, line: int)
    requires
        0 <= pos <= s.len(),
    ensures
        pos <= lex(s, pos, line).start <= lex(s, pos, line).end <= s.len(),
        lex(s, pos, line).kind == TokenType::Eof <==> lex(s, pos, line).start == s.len(),
        lex(s, pos, line).kind != TokenType::Eof ==> lex(s, pos, line).start < lex(
            s,
            pos,
            line,
        ).end,
        line <= lex(s, pos, line).line,
        lex(s, pos, line).line - line <= lex(s, pos, line).end - pos,
{
    lemma_skip_blank_bounds(s, pos, line);
    let (start, at_line) = skip_blank(s, pos, line);
    if start < s.len() {
        let c = s[start];
        let followed = start + 1 < s.len() && s[start + 1] == '=' as u8;
        if operator_kind(c, followed) is Some {
        } else if c == '"' as u8 {
            let close = run_end(s, start + 1, |b: u8| is_not_quote(b));
            lemma_run_end_bounds(s, start + 1, |b: u8| is_not_quote(b));
            lemma_newlines_bounds(s, start + 1, close);
        } else if is_alpha_byte(c) {
            lemma_run_end_bounds(s, start, |b: u8| is_word_byte(b));
            lemma_word_kind_is_word(s.subrange(start, run_end(s, start, |b: u8| is_word_byte(b))));
        } else if is_digit_byte(c) {
            let whole = run_end(s, start, |b: u8| is_digit_byte(b));
            lemma_run_end_bounds(s, start, |b: u8| is_digit_byte(b));
            if whole + 1 < s.len() {
                lemma_run_end_bounds(s, whole + 1, |b: u8| is_digit_byte(b));
            }
        }
    }
}

/// Whether `text` is a decimal numeral: one or more digits, alone or
/// followed by a dot and one or more digits.
pub open spec fn is_numeral(text: Seq<u8>) -> bool {
    let whole = run_end(text, 0, |b: u8| is_digit_byte(b));
    &&& 1 <= whole
    &&& whole == text.len() || {
        &&& whole + 1 < text.len()
        &&& text[whole] == '.' as u8
        &&& run_end(text, whole + 1, |b: u8| is_digit_byte(b)) == text.len()
    }
}

/// A run in a part of the source ends where the run in the whole source
/// ends, or at the end of the part if that comes first.
pub proof fn lemma_run_end_in_part(
    s: Seq<u8>,
    from: int,
    to: int,
    pos: int,
    member: spec_fn(u8) -> bool,
)
    requires
        0 <= from <= pos <= to <= s.len(),
    ensures
        run_end(s.subrange(from, to), pos - from, member) == if run_end(s, pos, member) < to {
            run_end(s, pos, member) - from
        } else {
            to - from
        },
    decreases to - pos,
{
    lemma_run_end_bounds(s, pos, member);
    if pos < to {
        assert(s.subrange(from, to)[pos - from] == s[pos]);
        if member(s[pos]) {
            lemma_run_end_in_part(s, from, to, pos + 1, member);
        }
    }
}

/// The text of a number token is a decimal numeral.
pub proof fn lemma_number_token_is_numeral(s: Seq<u8>, start: int, line: int)
    requires
        token_at(s, start, line).kind == TokenType::Number,
    ensures
        is_numeral(lexeme_text(s, token_at(s, start, line))),
{
    let token = token_at(s, start, line);
    let digits = |b: u8| is_digit_byte(b);
    if 0 <= start < s.len() {
        let c = s[start];
        let followed = start + 1 < s.len() && s[start + 1] == '=' as u8;
        if operator_kind(c, followed) is Some {
        } else if c == '"' as u8 {
        } else if is_alpha_byte(c) {
            lemma_word_kind_is_word(s.subrange(start, run_end(s, start, |b: u8| is_word_byte(b))));
        } else if is_digit_byte(c) {
            let whole = run_end(s, start, digits);
            lemma_run_end_bounds(s, start, digits);
            assert(whole > start);
            if whole + 1 < s.len() && s[whole] == '.' as u8 && is_digit_byte(s[whole + 1]) {
                let end = run_end(s, whole + 1, digits);
                lemma_run_end_bounds(s, whole + 1, digits);
                lemma_run_end_in_part(s, start, end, start, digits);
                lemma_run_end_in_part(s, start, end, whole + 1, digits);
                assert(s.subrange(start, end)[whole - start] == s[whole]);
            } else {
                lemma_run_end_in_part(s, start, whole, start, digits);
            }
        }
    }
}

/// A word is a keyword or an identifier, never another kind of token.
pub proof fn lemma_word_kind_is_word(word: Seq<u8>)
    ensures
        word_kind(word) != TokenType::Eof,
        word_kind(word) != TokenType::Error,
        word_kind(word) != TokenType::Number,
{
}

/// The tokens that scanning finds from `pos` on, with the line counter at
/// `line`: every token up to the end of the source, and the end-of-source
/// token as the last.
pub open spec fn tokens_from(s: Seq<u8>, pos: int, line: int) -> Seq<Lexeme>
    decreases s.len() - pos,
{
    let token = lex(s, pos, line);
    if 0 <= pos <= s.len() && token.kind != TokenType::Eof {
        proof {
            lemma_lex_bounds(s, pos, line);
        }
        seq![token] + tokens_from(s, token.end, token.line)
    } else {
        seq![token]
    }
}

/// The tokens of a source.
pub open spec fn tokens(s: Seq<u8>) -> Seq<Lexeme> {
    tokens_from(s, 0, 1)
}

/// Scanning on from the end-of-source token finds it again.
pub proof fn lemma_lex_at_end(s: Seq<u8>, pos: int, line: int)
    requires
        0 <= pos <= s.len(),
        lex(s, pos, line).kind == TokenType::Eof,
    ensures
        lex(s, lex(s, pos, line).end, lex(s, pos, line).line) == lex(s, pos, line),
{
    lemma_lex_bounds(s, pos, line);
    let (start, at_line) = skip_blank(s, pos, line);
    assert(start == s.len());
    assert(skip_blank(s, start, at_line) == (start, at_line));
}

/// The sequence of tokens starts with the token that scanning finds
/// first.
pub proof fn lemma_first_token(s: Seq<u8>, pos: int, line: int)
    ensures
        tokens_from(s, pos, line).len() >= 1,
        tokens_from(s, pos, line)[0] == lex(s, pos, line),
        lex(s, pos, line).kind == TokenType::Eof ==> tokens_from(s, pos, line).len() == 1,
        0 <= pos <= s.len() && lex(s, pos, line).kind != TokenType::Eof ==> tokens_from(
            s,
            pos,
            line,
        ) == seq![lex(s, pos, line)] + tokens_from(
            s,
            lex(s, pos, line).end,
            lex(s, pos, line).line,
        ),
{
}

/// The `k`-th token of a source lies in the source and is empty only if
/// it is the end-of-source token, which is the last token and no other.
/// The token behind it is what scanning finds behind it; behind the last
/// token scanning finds the last token again.
pub proof fn lemma_token(s: Seq<u8>, pos: int, line: int, k: int)
    requires
        0 <= pos <= s.len(),
        0 <= k < tokens_from(s, pos, line).len(),
    ensures
        pos <= tokens_from(s, pos, line)[k].start <= tokens_from(s, pos, line)[k].end <= s.len(),
        tokens_from(s, pos, line)[k].kind != TokenType::Eof ==> tokens_from(s, pos, line)[k].start
            < tokens_from(s, pos, line)[k].end,
        tokens_from(s, pos, line)[k].kind == TokenType::Eof <==> k == tokens_from(
            s,
            pos,
            line,
        ).len() - 1,
        lex(s, tokens_from(s, pos, line)[k].end, tokens_from(s, pos, line)[k].line)
            == tokens_from(s, pos, line)[if k + 1 < tokens_from(s, pos, line).len() {
            k + 1
        } else {
            k
        }],
    decreases k,
{
    let first = lex(s, pos, line);
    lemma_first_token(s, pos, line);
    lemma_lex_bounds(s, pos, line);
    if first.kind == TokenType::Eof {
        lemma_lex_at_end(s, pos, line);
    } else {
        let rest = tokens_from(s, first.end, first.line);
        lemma_first_token(s, first.end, first.line);
        if k > 0 {
            lemma_token(s, first.end, first.line, k - 1);
        }
    }
}

/// The texts of the number tokens among the first `count` of `tokens`, in
/// their order.
pub open spec fn number_texts(s: Seq<u8>, tokens: Seq<Lexeme>, count: nat) -> Seq<Seq<u8>>
    decreases count,
{
    if count == 0 {
        seq![]
    } else {
        let before = number_texts(s, tokens, (count - 1) as nat);
        if tokens[count - 1].kind == TokenType::Number {
            before.push(lexeme_text(s, tokens[count - 1]))
        } else {
            before
        }
    }
}

/// The texts of all number tokens of a source, in their order.
pub open spec fn all_number_texts(s: Seq<u8>) -> Seq<Seq<u8>> {
    number_texts(s, tokens(s), tokens(s).len())
}

/// The more tokens are looked at, the more number tokens are among them.
pub proof fn lemma_number_texts_grow(s: Seq<u8>, tokens: Seq<Lexeme>, fewer: nat, more: nat)
    requires
        fewer <= more,
    ensures
        number_texts(s, tokens, fewer).len() <= number_texts(s, tokens, more).len(),
    decreases more,
{
    if fewer < more {
        lemma_number_texts_grow(s, tokens, fewer, (more - 1) as nat);
    }
}

/// Every number token of a source is a decimal numeral, so a reader of
/// decimal numerals finds a value for each of them.
pub proof fn lemma_number_texts_are_numerals(s: Seq<u8>, count: nat)
    requires
        count <= tokens(s).len(),
    ensures
        forall|i: int|
            0 <= i < number_texts(s, tokens(s), count).len() ==> is_numeral(
                #[trigger] number_texts(s, tokens(s), count)[i],
            ),
    decreases count,
{
    if count > 0 {
        let before = number_texts(s, tokens(s), (count - 1) as nat);
        lemma_number_texts_are_numerals(s, (count - 1) as nat);
        let token = tokens(s)[count - 1];
        if token.kind == TokenType::Number {
            if count == 1 {
                lemma_first_token(s, 0, 1);
                lemma_number_token_is_numeral(s, skip_blank(s, 0, 1).0, skip_blank(s, 0, 1).1);
            } else {
                let earlier = tokens(s)[count - 2];
                lemma_token(s, 0, 1, count - 2);
                lemma_number_token_is_numeral(
                    s,
                    skip_blank(s, earlier.end, earlier.line).0,
                    skip_blank(s, earlier.end, earlier.line).1,
                );
            }
        }
    }
}

} // verus!
