//! The single-pass compiler: a precedence-climbing parser that emits
//! instructions as it reads.

use vstd::prelude::*;
use vstd::slice::slice_to_vec;
use vstd::string::StringSliceAdditionalSpecFns;
use crate::balance::{lemma_compiled_chunk_is_tidy, tidy};
use crate::chunk::Chunk;
use crate::expr::{
    binary_code, code_of, constants_of, lemma_constants_count, lines_of, operator_lines, Expr,
};
use crate::instruction::Instruction;
use crate::lexeme::{
    all_number_texts, is_numeral, lemma_first_token, lemma_number_texts_are_numerals,
    lemma_number_texts_grow, lemma_token, lexeme_text, number_texts, tokens, Lexeme,
};
use crate::parser::{
    count_of, expr_of, fault_at, infix, lexical_fault, operand, parse, parse_precedence, prefix,
    remaining, Fault,
};
use crate::precedence::{binds, infix_precedence, Precedence};
use crate::scanner::{Scanner, ScannerIterator};
use crate::text::{append, decimal, decimal_digits};
use crate::token::{Token, TokenType};
use crate::value::{Datum, Number, Value};
use crate::vm::{InterpretError, Vm};

verus! {

/// Whether `after` is `before` with `code`, `constants` and `lines`
/// appended.
pub open spec fn appended(
    after: Chunk,
    before: Chunk,
    code: Seq<Instruction>,
    constants: Seq<Datum>,
    lines: Seq<usize>,
) -> bool {
    &&& after.code() =~= before.code() + code
    &&& after.pool() =~= before.pool() + constants
    &&& after.line_table() =~= before.line_table() + lines
}

/// Whether `after` is `before` with something appended, or nothing.
pub open spec fn extends(after: Chunk, before: Chunk) -> bool {
    &&& before.code().is_prefix_of(after.code())
    &&& before.pool().is_prefix_of(after.pool())
    &&& before.line_table().is_prefix_of(after.line_table())
}

/// Whether `after` is `before` with the instructions, constants and lines
/// of `expr` appended.
pub open spec fn holds(after: Chunk, before: Chunk, expr: Expr, numbers: Seq<Number>) -> bool {
    appended(
        after,
        before,
        code_of(expr, before.pool().len() as int),
        constants_of(expr, numbers),
        lines_of(expr),
    )
}

/// A compile-time diagnostic: the line, the text of the offending token
/// (none for a lexical fault, whose text is the message) and the message.
#[derive(Debug)]
pub struct Diagnostic {
    pub line: usize,
    pub lexeme: Option<Vec<u8>>,
    pub message: Vec<u8>,
}

/// The text of a diagnostic: `[line L] Error at 'lexeme': message`, or
/// without the `at` part where it names no lexeme.
pub open spec fn diagnostic_text(fault: Fault) -> Seq<u8> {
    "[line ".spec_bytes() + decimal(fault.line as nat) + "] Error".spec_bytes() + (match fault.lexeme {
        Some(lexeme) => " at '".spec_bytes() + lexeme + "'".spec_bytes(),
        None => seq![],
    }) + ": ".spec_bytes() + fault.message
}

impl Diagnostic {
    /// The diagnostic as one line of text, without a newline.
    pub fn render(&self) -> (text: Vec<u8>)
        ensures
            text@ == diagnostic_text(self@),
    {
        let mut text: Vec<u8> = Vec::new();
        append(&mut text, "[line ".as_bytes());
        append(&mut text, decimal_digits(self.line).as_slice());
        append(&mut text, "] Error".as_bytes());
        match &self.lexeme {
            Some(lexeme) => {
                append(&mut text, " at '".as_bytes());
                append(&mut text, lexeme.as_slice());
                append(&mut text, "'".as_bytes());
            },
            None => {},
        }
        append(&mut text, ": ".as_bytes());
        append(&mut text, self.message.as_slice());
        assert(text@ =~= diagnostic_text(self@));
        text
    }
}

impl View for Diagnostic {
    type V = Fault;

    open spec fn view(&self) -> Fault {
        Fault {
            line: self.line as int,
            lexeme: match self.lexeme {
                Some(text) => Some(text@),
                None => None,
            },
            message: self.message@,
        }
    }
}

/// The two tokens the parser holds and its error flags.
struct Parser<'a> {
    previous: Option<Token<'a>>,
    current: Option<Token<'a>>,
    had_error: bool,
    panic_mode: bool,
}

impl<'a> Parser<'a> {
    fn new() -> (parser: Parser<'a>)
        ensures
            parser.previous is None,
            parser.current is None,
            !parser.had_error,
            !parser.panic_mode,
    {
        Parser { previous: None, current: None, had_error: false, panic_mode: false }
    }
}

/// The diagnostic for `message` at `token`.
spec fn diagnosis(token: Token, message: Seq<u8>) -> Fault {
    Fault {
        line: token.line as int,
        lexeme: if token.token_type == TokenType::Error {
            None
        } else {
            Some(token.code@)
        },
        message,
    }
}

/// Whether `token` is the token that scanning found as `lexeme`.
spec fn token_matches(src: Seq<u8>, token: Token, lexeme: Lexeme) -> bool {
    &&& token.token_type == lexeme.kind
    &&& token.line == lexeme.line
    &&& token.code@ == lexeme_text(src, lexeme)
}

/// The state of one compilation.
struct Compiler<'code> {
    parser: Parser<'code>,
    scanner: ScannerIterator<'code>,
    numbers: &'code Vec<Number>,
    /// The number of number tokens before the lookahead.
    seen: usize,
    diagnostics: Vec<Diagnostic>,
    /// The index of the lookahead among the tokens of the source.
    at: Ghost<nat>,
    /// The index of the token acted on.
    behind: Ghost<nat>,
}

impl<'code> Compiler<'code> {
    spec fn src(self) -> Seq<u8> {
        self.scanner.source()
    }

    spec fn tokens(self) -> Seq<Lexeme> {
        tokens(self.scanner.source())
    }

    /// Whether the tokens held, the scanner and the two indices agree.
    spec fn aligned(self) -> bool {
        let src = self.src();
        let tokens = self.tokens();
        let at = self.at@;
        let behind = self.behind@;
        &&& match self.parser.current {
            Some(token) => {
                &&& at < tokens.len()
                &&& token_matches(src, token, tokens[at as int])
                &&& tokens[at as int].kind != TokenType::Error
                &&& self.scanner.position() == tokens[at as int].end
                &&& self.scanner.line_counter() == tokens[at as int].line
            },
            None => {
                &&& at == 0
                &&& self.scanner.position() == 0
                &&& self.scanner.line_counter() == 1
                &&& self.parser.previous is None
            },
        }
        &&& self.parser.previous matches Some(token) ==> {
            &&& behind <= at
            &&& token_matches(src, token, tokens[behind as int])
            &&& tokens[behind as int].kind != TokenType::Eof ==> behind < at
            &&& !self.parser.had_error ==> at <= behind + 1
        }
        &&& self.seen == number_texts(src, tokens, at).len()
        &&& all_number_texts(src).len() <= self.numbers@.len()
    }

    /// The first fault sets both flags and is the only one reported.
    spec fn flags_ok(self) -> bool {
        &&& self.parser.panic_mode == self.parser.had_error
        &&& self.diagnostics@.len() == if self.parser.had_error {
            1int
        } else {
            0int
        }
    }

    /// What holds of the compiler between any two of its steps.
    spec fn wf(self) -> bool {
        self.aligned() && self.flags_ok()
    }

    /// Whether `self` is `before` after `fault` was reported: it is
    /// recorded unless an earlier one was.
    spec fn reported(self, before: Self, fault: Fault) -> bool {
        &&& self.same_but_errors(before)
        &&& self.flags_ok()
        &&& self.parser.had_error
        &&& if before.parser.had_error {
            self.diagnostics@ == before.diagnostics@
        } else {
            self.diagnostics@[0]@ == fault
        }
    }

    spec fn same_input(self, before: Self) -> bool {
        &&& self.scanner.source() == before.scanner.source()
        &&& self.numbers == before.numbers
    }

    /// Whether the compiler has done what `expected` says, given that it
    /// stood at `before`: its lookahead is the token `expected` tokens
    /// behind the index `base`, or the fault is reported. Once a fault has
    /// been reported nothing more is.
    spec fn follows(self, before: Self, base: nat, expected: Result<nat, Fault>) -> bool {
        if before.parser.had_error {
            self.parser.had_error && self.diagnostics@ == before.diagnostics@
        } else {
            match expected {
                Ok(count) => !self.parser.had_error && self.at@ == base + count,
                Err(fault) => self.parser.had_error && self.diagnostics@[0]@ == fault,
            }
        }
    }

    /// What every parsing step keeps or reaches.
    spec fn steps_from(self, before: Self) -> bool {
        &&& self.wf()
        &&& self.same_input(before)
        &&& before.at@ <= self.at@
        &&& self.parser.current is Some
        &&& self.parser.previous is Some
    }

    spec fn measure(self) -> nat {
        remaining(self.tokens(), self.at@)
    }

    /// Whether `self` is `before` but for the error flags and the
    /// diagnostics.
    spec fn same_but_errors(self, before: Self) -> bool {
        &&& self.parser.previous == before.parser.previous
        &&& self.parser.current == before.parser.current
        &&& self.scanner == before.scanner
        &&& self.numbers == before.numbers
        &&& self.seen == before.seen
        &&& self.at == before.at
        &&& self.behind == before.behind
    }

    /// What `advance` is to find: the lookahead moves on by one token,
    /// unless it is the end of the source, and the new lookahead is no
    /// lexical fault. The first call finds the first token.
    spec fn step(self) -> Result<nat, Fault> {
        let next = if self.parser.current is Some {
            self.at@ + 1
        } else {
            0
        };
        match lexical_fault(self.src(), self.tokens(), next as nat) {
            Some(fault) => Err(fault),
            None => Ok(
                if next < self.tokens().len() {
                    next as nat
                } else {
                    self.at@
                },
            ),
        }
    }

    /// A compiler at the start of `code`, with nothing read yet.
    fn new(code: &'code str, numbers: &'code Vec<Number>) -> (compiler: Compiler<'code>)
        requires
            code.spec_bytes().len() < usize::MAX,
            numbers@.len() >= all_number_texts(code.spec_bytes()).len(),
        ensures
            compiler.wf(),
            compiler.src() == code.spec_bytes(),
            compiler.numbers == numbers,
            !compiler.parser.had_error,
            compiler.parser.current is None,
    {
        let mut scanner = Scanner::new();
        Compiler {
            parser: Parser::new(),
            scanner: scanner.scan(code),
            numbers,
            seen: 0,
            diagnostics: Vec::new(),
            at: Ghost(0),
            behind: Ghost(0),
        }
    }

    /// Records the diagnostic for `message` at `token`, unless an earlier
    /// fault is still being recovered from.
    fn error_at(&mut self, token: Token<'code>, message: &[u8])
        ensures
            final(self).same_but_errors(*old(self)),
            final(self).parser.had_error == old(self).parser.had_error,
            final(self).parser.panic_mode == old(self).parser.panic_mode,
            old(self).parser.panic_mode ==> final(self).diagnostics@ == old(self).diagnostics@,
            !old(self).parser.panic_mode ==> {
                &&& final(self).diagnostics@.len() == old(self).diagnostics@.len() + 1
                &&& final(self).diagnostics@.last()@ == diagnosis(token, message@)
            },
    {
        if self.parser.panic_mode {
            return ;
        }
        let lexeme = if token.token_type != TokenType::Error {
            Some(slice_to_vec(token.code))
        } else {
            None
        };
        self.diagnostics.push(
            Diagnostic { line: token.line, lexeme, message: slice_to_vec(message) },
        );
    }

    /// Notes that a fault was found and that what follows it is not to be
    /// reported.
    fn mark_error(&mut self)
        ensures
            final(self).same_but_errors(*old(self)),
            final(self).diagnostics == old(self).diagnostics,
            final(self).parser.had_error,
            final(self).parser.panic_mode,
    {
        self.parser.had_error = true;
        self.parser.panic_mode = true;
    }

    /// Reports `message` at the token acted on.
    fn error(&mut self, message: &[u8])
        requires
            old(self).flags_ok(),
            old(self).parser.previous is Some,
        ensures
            final(self).reported(
                *old(self),
                diagnosis(old(self).parser.previous->Some_0, message@),
            ),
    {
        match self.parser.previous {
            Some(previous_token) => {
                self.error_at(previous_token, message);
            },
            None => {},
        }
        self.mark_error();
    }

    /// Reports `message` at the lookahead token.
    fn error_at_current(&mut self, message: &[u8])
        requires
            old(self).flags_ok(),
            old(self).parser.current is Some,
        ensures
            final(self).reported(
                *old(self),
                diagnosis(old(self).parser.current->Some_0, message@),
            ),
    {
        match self.parser.current {
            Some(current_token) => {
                self.error_at(current_token, message);
            },
            None => {},
        }
        self.mark_error();
    }

    /// Shifts the lookahead into the token acted on and reads the next
    /// token that is no lexical fault, reporting the faults passed.
    fn advance(&mut self)
        requires
            old(self).wf(),
        ensures
            final(self).wf(),
            final(self).same_input(*old(self)),
            final(self).parser.current is Some,
            final(self).parser.previous == old(self).parser.current,
            old(self).parser.current is Some ==> final(self).behind@ == old(self).at@,
            old(self).at@ <= final(self).at@,
            old(self).parser.current is Some && old(self).tokens()[old(self).at@ as int].kind
                != TokenType::Eof ==> old(self).at@ < final(self).at@,
            final(self).follows(*old(self), 0, old(self).step()),
    {
        let ghost src = self.src();
        let ghost tokens = self.tokens();
        let ghost first: nat = if self.parser.current is None {
            0
        } else if self.at@ + 1 < tokens.len() {
            self.at@ + 1
        } else {
            self.at@
        };
        proof {
            lemma_first_token(src, 0, 1);
            if self.parser.current is Some {
                lemma_token(src, 0, 1, self.at@ as int);
            }
            self.behind@ = self.at@;
        }
        assert(self.numbers@.len() == self.numbers.len());
        proof {
            lemma_number_texts_grow(src, tokens, first, tokens.len());
        }
        self.parser.previous = self.parser.current;
        match self.parser.current {
            Some(token) => {
                if token.token_type == TokenType::Number {
                    self.seen += 1;
                }
            },
            None => {},
        }
        let ghost mut next: nat = first;
        loop
            invariant_except_break
                self.at@ == old(self).at@,
                first <= next < tokens.len(),
                0 <= self.scanner.position() <= src.len(),
                self.scanner.upcoming() == tokens[next as int],
                self.seen == number_texts(src, tokens, next).len(),
                ({
                    &&& next == first
                    &&& self.parser.had_error == old(self).parser.had_error
                    &&& self.diagnostics@ == old(self).diagnostics@
                }) || ({
                    &&& self.parser.had_error
                    &&& tokens[first as int].kind == TokenType::Error
                    &&& if old(self).parser.had_error {
                        self.diagnostics@ == old(self).diagnostics@
                    } else {
                        Some(self.diagnostics@[0]@) == lexical_fault(src, tokens, first)
                    }
                }),
            invariant
                src == old(self).src(),
                tokens == old(self).tokens(),
                first == if old(self).parser.current is None {
                    0
                } else if old(self).at@ + 1 < tokens.len() {
                    old(self).at@ + 1
                } else {
                    old(self).at@
                },
                old(self).wf(),
                self.same_input(*old(self)),
                self.parser.previous == old(self).parser.current,
                self.behind@ == old(self).at@,
                all_number_texts(src).len() <= self.numbers@.len(),
                self.flags_ok(),
            ensures
                self.wf(),
                self.parser.current is Some,
                first <= self.at@,
                self.follows(*old(self), 0, old(self).step()),
            decreases tokens.len() - next,
        {
            let token = self.scanner.next();
            self.parser.current = Some(token);
            proof {
                lemma_token(src, 0, 1, next as int);
            }
            if token.token_type != TokenType::Error {
                proof {
                    self.at@ = next;
                }
                break ;
            }
            self.error_at_current(token.code);
            proof {
                next = next + 1;
            }
        }
    }

    /// Appends `instruction` with the line of the token acted on.
    fn emit_instruction(&self, chunk: &mut Chunk, instruction: Instruction)
        requires
            self.parser.previous is Some,
        ensures
            appended(
                *final(chunk),
                *old(chunk),
                seq![instruction],
                seq![],
                seq![self.parser.previous->Some_0.line],
            ),
    {
        let line = match self.parser.previous {
            Some(token) => token.line,
            None => 0,
        };
        chunk.add_instruction(instruction, line);
    }

    /// Ends the chunk.
    fn end_compiler(&self, chunk: &mut Chunk)
        requires
            self.parser.previous is Some,
        ensures
            appended(
                *final(chunk),
                *old(chunk),
                seq![Instruction::OpReturn],
                seq![],
                seq![self.parser.previous->Some_0.line],
            ),
    {
        self.emit_return(chunk);
    }

    /// Appends `OpReturn`.
    fn emit_return(&self, chunk: &mut Chunk)
        requires
            self.parser.previous is Some,
        ensures
            appended(
                *final(chunk),
                *old(chunk),
                seq![Instruction::OpReturn],
                seq![],
                seq![self.parser.previous->Some_0.line],
            ),
    {
        self.emit_instruction(chunk, Instruction::OpReturn);
    }

    /// Appends `value` to the pool and the instruction that loads it.
    fn emit_constant(&self, chunk: &mut Chunk, value: Value)
        requires
            self.parser.previous is Some,
        ensures
            appended(
                *final(chunk),
                *old(chunk),
                seq![Instruction::OpConstant(old(chunk).pool().len() as usize)],
                seq![value@],
                seq![self.parser.previous->Some_0.line],
            ),
    {
        let constant_index = chunk.add_constant(value);
        self.emit_instruction(chunk, Instruction::OpConstant(constant_index));
    }

    /// Whether the compiler, having stood at `before` with the chunk
    /// `chunk_before`, has done what the parse `expected` of the tokens
    /// from `base` on says: its lookahead is the token behind the
    /// expression and the chunk holds the expression, or the fault is
    /// reported. After an earlier fault only that one stays reported.
    spec fn parsed(
        self,
        before: Self,
        base: nat,
        chunk: Chunk,
        chunk_before: Chunk,
        expected: Result<(Expr, nat), Fault>,
    ) -> bool {
        &&& self.steps_from(before)
        &&& self.follows(before, base, count_of(expected))
        &&& extends(chunk, chunk_before)
        &&& (!before.parser.had_error && expected is Ok) ==> {
            &&& holds(chunk, chunk_before, expr_of(expected), self.numbers@)
            &&& self.behind@ + 1 == self.at@
        }
    }

    /// Compiles an expression of any precedence.
    fn expression(&mut self, chunk: &mut Chunk)
        requires
            old(self).wf(),
            old(self).parser.current is Some,
        ensures
            final(self).parsed(
                *old(self),
                old(self).at@,
                *final(chunk),
                *old(chunk),
                parse_precedence(
                    old(self).src(),
                    old(self).tokens(),
                    old(self).at@,
                    Precedence::Assignment,
                ),
            ),
        decreases old(self).measure(), 2int,
    {
        self.parse_precedence(chunk, Precedence::Assignment);
    }

    /// Whether the lookahead is an infix operator that continues an
    /// expression parsed at `precedence`.
    fn continues(&self, precedence: Precedence) -> (r: bool)
        requires
            self.wf(),
            self.parser.current is Some,
        ensures
            r == binds(self.tokens()[self.at@ as int].kind, precedence),
    {
        match self.parser.current {
            Some(token) => {
                let own = token.token_type.precedence();
                own.rank() != 0 && precedence.rank() <= own.rank()
            },
            None => false,
        }
    }

    /// Compiles an expression whose infix operators bind at least as
    /// tightly as `precedence`: the operand that the lookahead starts, then
    /// every operator that continues it.
    fn parse_precedence(&mut self, chunk: &mut Chunk, precedence: Precedence)
        requires
            old(self).wf(),
            old(self).parser.current is Some,
        ensures
            final(self).parsed(
                *old(self),
                old(self).at@,
                *final(chunk),
                *old(chunk),
                parse_precedence(old(self).src(), old(self).tokens(), old(self).at@, precedence),
            ),
        decreases old(self).measure(), 1int,
    {
        let ghost src = self.src();
        let ghost tokens = self.tokens();
        let ghost start = self.at@;
        let ghost numbers = self.numbers@;
        let ghost tracking = !self.parser.had_error;
        let ghost target = parse_precedence(src, tokens, start, precedence);
        self.advance();
        let kind = match self.parser.previous {
            Some(token) => token.token_type,
            None => TokenType::Eof,
        };
        if kind == TokenType::Minus || kind == TokenType::Bang {
            self.unary(chunk);
        } else if kind == TokenType::LeftParen {
            self.grouping(chunk);
        } else if kind == TokenType::Number {
            self.number(chunk);
        } else if kind == TokenType::False || kind == TokenType::True || kind == TokenType::Nil {
            self.literal(chunk);
        } else {
            self.error("Expected prefix expression".as_bytes());
        }
        let ghost mut left: Expr = expr_of(prefix(src, tokens, start));
        while self.continues(precedence)
            invariant
                src == old(self).src(),
                tokens == old(self).tokens(),
                start == old(self).at@,
                numbers == old(self).numbers@,
                tracking == !old(self).parser.had_error,
                target == parse_precedence(src, tokens, start, precedence),
                self.steps_from(*old(self)),
                extends(*chunk, *old(chunk)),
                !tracking ==> self.parser.had_error && self.diagnostics@ == old(
                    self,
                ).diagnostics@,
                tracking ==> if self.parser.had_error {
                    target is Err && self.diagnostics@[0]@ == target->Err_0
                } else {
                    &&& infix(src, tokens, start, left, (self.at@ - start) as nat, precedence)
                        == target
                    &&& holds(*chunk, *old(chunk), left, numbers)
                    &&& self.behind@ + 1 == self.at@
                },
            decreases self.measure(),
        {
            let ghost operator = self.at@;
            let ghost good = tracking && !self.parser.had_error;
            self.advance();
            self.binary(chunk);
            proof {
                if good && !self.parser.had_error {
                    let right = expr_of(operand(src, tokens, operator));
                    let joined = Expr::Binary {
                        operator: tokens[operator as int].kind,
                        left: Box::new(left),
                        right: Box::new(right),
                        line: tokens[self.at@ - 1].line,
                    };
                    lemma_constants_count(left, numbers);
                    left = joined;
                }
            }
        }
    }

    /// Emits the constant of the number token acted on.
    fn number(&self, chunk: &mut Chunk)
        requires
            self.wf(),
            self.parser.current is Some,
            self.parser.previous matches Some(token) && token.token_type == TokenType::Number,
        ensures
            !self.parser.had_error ==> holds(
                *final(chunk),
                *old(chunk),
                expr_of(prefix(self.src(), self.tokens(), self.behind@)),
                self.numbers@,
            ),
            extends(*final(chunk), *old(chunk)),
    {
        proof {
            lemma_number_texts_grow(self.src(), self.tokens(), self.behind@ + 1, self.at@);
            lemma_number_texts_grow(self.src(), self.tokens(), self.at@, self.tokens().len());
        }
        let value = self.numbers[self.seen - 1];
        self.emit_constant(chunk, Value::Number(value));
    }

    /// Emits the instruction of the keyword literal acted on.
    fn literal(&self, chunk: &mut Chunk)
        requires
            self.wf(),
            self.parser.current is Some,
            self.parser.previous matches Some(token) && (token.token_type == TokenType::False
                || token.token_type == TokenType::True || token.token_type == TokenType::Nil),
        ensures
            !self.parser.had_error ==> holds(
                *final(chunk),
                *old(chunk),
                expr_of(prefix(self.src(), self.tokens(), self.behind@)),
                self.numbers@,
            ),
            extends(*final(chunk), *old(chunk)),
    {
        let kind = match self.parser.previous {
            Some(token) => token.token_type,
            None => TokenType::Nil,
        };
        match kind {
            TokenType::False => self.emit_instruction(chunk, Instruction::OpFalse),
            TokenType::True => self.emit_instruction(chunk, Instruction::OpTrue),
            _ => self.emit_instruction(chunk, Instruction::OpNil),
        }
    }

    /// Reads the lookahead if it is of the kind `token_type`, and reports
    /// `message` at it if not.
    fn consume(&mut self, token_type: TokenType, message: &[u8])
        requires
            old(self).wf(),
            old(self).parser.current is Some,
            old(self).parser.previous is Some,
        ensures
            final(self).steps_from(*old(self)),
            final(self).follows(
                *old(self),
                0,
                if old(self).tokens()[old(self).at@ as int].kind == token_type {
                    old(self).step()
                } else {
                    Err(
                        fault_at(
                            old(self).src(),
                            old(self).tokens()[old(self).at@ as int],
                            message@,
                        ),
                    )
                },
            ),
            old(self).tokens()[old(self).at@ as int].kind == token_type ==> final(self).behind@
                == old(self).at@,
    {
        let matched = match self.parser.current {
            Some(token) => token.token_type == token_type,
            None => false,
        };
        if matched {
            self.advance();
        } else {
            self.error_at_current(message);
        }
    }

    /// Compiles the expression behind the `(` acted on and reads the `)`.
    fn grouping(&mut self, chunk: &mut Chunk)
        requires
            old(self).wf(),
            old(self).parser.current is Some,
            old(self).parser.previous matches Some(token) && token.token_type
                == TokenType::LeftParen,
        ensures
            final(self).parsed(
                *old(self),
                old(self).behind@,
                *final(chunk),
                *old(chunk),
                prefix(old(self).src(), old(self).tokens(), old(self).behind@),
            ),
        decreases old(self).measure(), 3int,
    {
        proof {
            lemma_token(self.src(), 0, 1, self.at@ as int);
        }
        self.expression(chunk);
        proof {
            lemma_token(self.src(), 0, 1, self.at@ as int);
        }
        self.consume(TokenType::RightParen, "Expect ')' after expression".as_bytes());
    }

    /// Compiles the operand of the prefix operator acted on, then the
    /// operator.
    fn unary(&mut self, chunk: &mut Chunk)
        requires
            old(self).wf(),
            old(self).parser.current is Some,
            old(self).parser.previous matches Some(token) && (token.token_type
                == TokenType::Minus || token.token_type == TokenType::Bang),
        ensures
            final(self).parsed(
                *old(self),
                old(self).behind@,
                *final(chunk),
                *old(chunk),
                prefix(old(self).src(), old(self).tokens(), old(self).behind@),
            ),
        decreases old(self).measure(), 2int,
    {
        let operator_type = match self.parser.previous {
            Some(token) => token.token_type,
            None => TokenType::Bang,
        };
        self.parse_precedence(chunk, Precedence::Unary);
        match operator_type {
            TokenType::Minus => self.emit_instruction(chunk, Instruction::OpNegate),
            _ => self.emit_instruction(chunk, Instruction::OpNot),
        }
    }

    /// Compiles the right operand of the infix operator acted on, then the
    /// operator.
    fn binary(&mut self, chunk: &mut Chunk)
        requires
            old(self).wf(),
            old(self).parser.current is Some,
            old(self).parser.previous matches Some(token) && infix_precedence(token.token_type)
                != Precedence::Lowest,
        ensures
            final(self).steps_from(*old(self)),
            final(self).follows(
                *old(self),
                old(self).at@,
                count_of(operand(old(self).src(), old(self).tokens(), old(self).behind@)),
            ),
            extends(*final(chunk), *old(chunk)),
            (!old(self).parser.had_error && operand(
                old(self).src(),
                old(self).tokens(),
                old(self).behind@,
            ) is Ok) ==> {
                &&& final(self).behind@ + 1 == final(self).at@
                &&& appended(
                    *final(chunk),
                    *old(chunk),
                    code_of(
                        expr_of(operand(old(self).src(), old(self).tokens(), old(self).behind@)),
                        old(chunk).pool().len() as int,
                    ) + binary_code(old(self).tokens()[old(self).behind@ as int].kind),
                    constants_of(
                        expr_of(operand(old(self).src(), old(self).tokens(), old(self).behind@)),
                        old(self).numbers@,
                    ),
                    lines_of(
                        expr_of(operand(old(self).src(), old(self).tokens(), old(self).behind@)),
                    ) + operator_lines(
                        old(self).tokens()[old(self).behind@ as int].kind,
                        old(self).tokens()[final(self).at@ - 1].line,
                    ),
                )
            },
        decreases old(self).measure(), 2int,
    {
        let operator_type = match self.parser.previous {
            Some(token) => token.token_type,
            None => TokenType::Eof,
        };
        self.parse_precedence(chunk, operator_type.precedence().higher());
        self.emit_operator(chunk, operator_type);
    }

    /// Appends the instructions of the infix operator `operator_type`.
    fn emit_operator(&self, chunk: &mut Chunk, operator_type: TokenType)
        requires
            self.parser.previous is Some,
        ensures
            appended(
                *final(chunk),
                *old(chunk),
                binary_code(operator_type),
                seq![],
                operator_lines(operator_type, self.parser.previous->Some_0.line as int),
            ),
    {
        match operator_type {
            TokenType::Plus => self.emit_instruction(chunk, Instruction::OpAdd),
            TokenType::Minus => self.emit_instruction(chunk, Instruction::OpSubtract),
            TokenType::Star => self.emit_instruction(chunk, Instruction::OpMultiply),
            TokenType::Slash => self.emit_instruction(chunk, Instruction::OpDivide),
            TokenType::BangEqual => {
                self.emit_instruction(chunk, Instruction::OpEqual);
                self.emit_instruction(chunk, Instruction::OpNot);
            },
            TokenType::EqualEqual => self.emit_instruction(chunk, Instruction::OpEqual),
            TokenType::Greater => self.emit_instruction(chunk, Instruction::OpGreater),
            TokenType::GreaterEqual => {
                self.emit_instruction(chunk, Instruction::OpLess);
                self.emit_instruction(chunk, Instruction::OpNot);
            },
            TokenType::Less => self.emit_instruction(chunk, Instruction::OpLess),
            TokenType::LessEqual => {
                self.emit_instruction(chunk, Instruction::OpGreater);
                self.emit_instruction(chunk, Instruction::OpNot);
            },
            _ => {},
        }
    }

    /// Compiles the expression that the source starts with and ends the
    /// chunk with `OpReturn`, whether or not a fault was found.
    fn compile(&mut self, chunk: &mut Chunk) -> (result: Result<(), InterpretError>)
        requires
            old(self).wf(),
            old(self).parser.current is None,
            !old(self).parser.had_error,
        ensures
            final(self).src() == old(self).src(),
            compiled(old(self).src(), old(self).numbers@, *old(chunk), *final(chunk), result),
            reported(old(self).src(), final(self).diagnostics@),
    {
        let ghost before = *chunk;
        self.advance();
        self.expression(chunk);
        self.end_compiler(chunk);
        proof {
            assert(chunk.code().last() == Instruction::OpReturn);
            if !self.parser.had_error {
                let expr = parse(self.src())->Ok_0.0;
                assert(code_of(expr, before.pool().len() as int).push(Instruction::OpReturn)
                    =~= code_of(expr, before.pool().len() as int) + seq![Instruction::OpReturn]);
            }
        }
        if self.parser.had_error {
            Err(InterpretError::CompileError)
        } else {
            Ok(())
        }
    }
}

/// What compiling `src` does to a chunk.
///
/// Where the source parses, the chunk gains the code of the expression and
/// a final `OpReturn`. Where it does not, the result is `CompileError`;
/// the chunk has only grown and ends with `OpReturn`, but what it gained
/// is not meant to be run.
pub open spec fn compiled(
    src: Seq<u8>,
    numbers: Seq<Number>,
    before: Chunk,
    after: Chunk,
    result: Result<(), InterpretError>,
) -> bool {
    match parse(src) {
        Ok((expr, line)) => {
            &&& result is Ok
            &&& appended(
                after,
                before,
                code_of(expr, before.pool().len() as int).push(Instruction::OpReturn),
                constants_of(expr, numbers),
                lines_of(expr).push(line as usize),
            )
        },
        Err(fault) => {
            &&& result == Err::<(), InterpretError>(InterpretError::CompileError)
            &&& extends(after, before)
            &&& after.code().len() > before.code().len()
            &&& after.code().last() == Instruction::OpReturn
        },
    }
}

/// What compiling `src` reports: nothing where the source parses, else the
/// first fault and no other.
pub open spec fn reported(src: Seq<u8>, diagnostics: Seq<Diagnostic>) -> bool {
    match parse(src) {
        Ok(_) => diagnostics.len() == 0,
        Err(fault) => diagnostics.len() == 1 && diagnostics[0]@ == fault,
    }
}

/// Compiles the expression at the start of `code` into `chunk`.
///
/// `numbers` holds the value of each number token of `code`, in the order
/// of `number_lexemes`.
pub fn compile(code: &str, numbers: &Vec<Number>, chunk: &mut Chunk) -> (result: Result<
    (),
    InterpretError,
>)
    requires
        code.spec_bytes().len() < usize::MAX,
        numbers@.len() >= all_number_texts(code.spec_bytes()).len(),
    ensures
        compiled(code.spec_bytes(), numbers@, *old(chunk), *final(chunk), result),
        result is Ok && old(chunk).code().len() == 0 && old(chunk).pool().len() == 0 ==> tidy(
            *final(chunk),
        ) && Vm::admits(*final(chunk)),
{
    let (result, diagnostics) = compile_reporting(code, numbers, chunk);
    result
}

/// Compiles as `compile` does and hands back the diagnostics as well: none
/// on success, and on failure the first fault alone, since the parser
/// reports nothing more once it has found one.
pub fn compile_reporting(code: &str, numbers: &Vec<Number>, chunk: &mut Chunk) -> (outcome: (
    Result<(), InterpretError>,
    Vec<Diagnostic>,
))
    requires
        code.spec_bytes().len() < usize::MAX,
        numbers@.len() >= all_number_texts(code.spec_bytes()).len(),
    ensures
        compiled(code.spec_bytes(), numbers@, *old(chunk), *final(chunk), outcome.0),
        reported(code.spec_bytes(), outcome.1@),
        outcome.0 is Ok && old(chunk).code().len() == 0 && old(chunk).pool().len() == 0 ==> tidy(
            *final(chunk),
        ) && Vm::admits(*final(chunk)),
{
    let mut compiler = Compiler::new(code, numbers);
    let result = compiler.compile(chunk);
    proof {
        if result is Ok && old(chunk).code().len() == 0 && old(chunk).pool().len() == 0 {
            lemma_compiled_chunk_is_tidy(code.spec_bytes(), numbers@, *old(chunk), *chunk, result);
        }
    }
    (result, compiler.diagnostics)
}

/// The text of each number token of `code`, in source order: what the
/// caller of `compile` has to find the values of.
pub fn number_lexemes(code: &str) -> (lexemes: Vec<Vec<u8>>)
    requires
        code.spec_bytes().len() < usize::MAX,
    ensures
        lexemes@.len() == all_number_texts(code.spec_bytes()).len(),
        forall|i: int|
            0 <= i < lexemes@.len() ==> (#[trigger] lexemes@[i])@ == all_number_texts(
                code.spec_bytes(),
            )[i],
        forall|i: int| 0 <= i < lexemes@.len() ==> is_numeral((#[trigger] lexemes@[i])@),
{
    let ghost src = code.spec_bytes();
    let ghost all = tokens(src);
    let mut scanner = Scanner::new();
    let mut found = scanner.scan(code);
    let mut lexemes: Vec<Vec<u8>> = Vec::new();
    let ghost mut next: nat = 0;
    proof {
        lemma_first_token(src, 0, 1);
    }
    loop
        invariant_except_break
            next < all.len(),
            found.upcoming() == all[next as int],
            Seq::new(lexemes@.len(), |i: int| lexemes@[i]@) =~= number_texts(src, all, next),
        invariant
            all == tokens(src),
            found.source() == src,
        ensures
            Seq::new(lexemes@.len(), |i: int| lexemes@[i]@) =~= all_number_texts(src),
        decreases all.len() - next,
    {
        let ghost texts = Seq::new(lexemes@.len(), |i: int| lexemes@[i]@);
        let token = found.next();
        proof {
            lemma_token(src, 0, 1, next as int);
        }
        if token.token_type == TokenType::Eof {
            break ;
        }
        if token.token_type == TokenType::Number {
            lexemes.push(slice_to_vec(token.code));
            assert(Seq::new(lexemes@.len(), |i: int| lexemes@[i]@) =~= texts.push(token.code@));
        }
        proof {
            next = next + 1;
        }
    }
    proof {
        lemma_number_texts_are_numerals(src, all.len());
        let texts = Seq::new(lexemes@.len(), |i: int| lexemes@[i]@);
        assert forall|i: int| 0 <= i < lexemes@.len() implies (#[trigger] lexemes@[i])@
            == all_number_texts(src)[i] by {
            assert(texts[i] == lexemes@[i]@);
        }
    }
    lexemes
}

} // verus!
