//! The scanner: from source text to tokens.
//!
//! What scanning gives is defined by [`scanned`]; [`Scanner::scan`] computes
//! it. [`lemma_filler_between_lexemes`] shows that blanks and comments between
//! lexemes do not matter.

use crate::text::{collect_text, decimal, push_decimal, same_text, to_chars};
use vstd::string::StringExecFns;
use crate::grammar::program;
use crate::token::{token_models, Token, TokenModel, TokenType};
use vstd::prelude::*;

verus! {

/// What went wrong while scanning.
#[derive(Clone, Copy, Debug, PartialEq, Eq, Structural)]
pub enum ScannerErrorType {
    UnexpectedCharacter,
    UnterminatedString,
}

/// A lexical error and the line it was found on.
#[derive(Clone, Copy, Debug, PartialEq, Eq, Structural)]
pub struct ScannerError {
    pub line: usize,
    pub error_type: ScannerErrorType,
}

impl ScannerError {
    /// The text of the error's message.
    pub open spec fn message_text(self) -> Seq<char> {
        match self.error_type {
            ScannerErrorType::UnterminatedString => "unterminated string at line "@ + decimal(
                self.line as nat,
            ),
            ScannerErrorType::UnexpectedCharacter => "unexpected character at line "@ + decimal(
                self.line as nat,
            ),
        }
    }

    /// The error as a message for the user: what went wrong and on which
    /// line.
    pub fn message(&self) -> (text: String)
        ensures
            text@ == self.message_text(),
    {
        let mut text = match self.error_type {
            ScannerErrorType::UnterminatedString => String::from_str("unterminated string at line "),
            ScannerErrorType::UnexpectedCharacter => String::from_str(
                "unexpected character at line ",
            ),
        };
        push_decimal(&mut text, self.line);
        text
    }
}

/// An ASCII decimal digit.
pub open spec fn is_digit(c: char) -> bool {
    '0' <= c <= '9'
}

/// An ASCII letter.
pub open spec fn is_alphabetic(c: char) -> bool {
    ('a' <= c <= 'z') || ('A' <= c <= 'Z')
}

/// An ASCII letter or digit.
pub open spec fn is_alphanumeric(c: char) -> bool {
    is_alphabetic(c) || is_digit(c)
}

/// The classes of characters that a lexeme may run over.
pub enum CharClass {
    /// ASCII decimal digits: the parts of a number.
    Digit,
    /// ASCII letters and digits: the tail of an identifier.
    Alphanumeric,
    /// Anything but a line feed: the text of a line comment.
    NotNewline,
    /// Anything but a double quote: the contents of a string.
    NotQuote,
}

impl CharClass {
    /// Whether `c` belongs to the class.
    pub open spec fn holds(self, c: char) -> bool {
        match self {
            CharClass::Digit => is_digit(c),
            CharClass::Alphanumeric => is_alphanumeric(c),
            CharClass::NotNewline => c != '\n',
            CharClass::NotQuote => c != '"',
        }
    }
}

/// The character at `at`, or NUL past the end of the source.
pub open spec fn char_at(source: Seq<char>, at: int) -> char {
    if 0 <= at < source.len() {
        source[at]
    } else {
        '\0'
    }
}

/// Whether the character at `at` exists and is `expected`.
pub open spec fn followed_by(source: Seq<char>, at: int, expected: char) -> bool {
    0 <= at < source.len() && source[at] == expected
}

/// The first position at or after `from` whose character is not of `class`, or the
/// end of the source when every character from `from` on passes.
pub open spec fn run_end(source: Seq<char>, from: int, class: CharClass) -> int
    decreases source.len() - from,
{
    if 0 <= from < source.len() && class.holds(source[from]) {
        run_end(source, from + 1, class)
    } else {
        from
    }
}

/// The number of line feeds in `source[from..to]`.
pub open spec fn newlines(source: Seq<char>, from: int, to: int) -> nat
    decreases to - from,
{
    if from < to {
        newlines(source, from, to - 1) + if char_at(source, to - 1) == '\n' {
            1nat
        } else {
            0nat
        }
    } else {
        0
    }
}

/// The line number `count` lines below `line`. Line numbers stop at the
/// largest value the machine word holds.
pub open spec fn line_after(line: usize, count: nat) -> usize {
    if line + count > usize::MAX {
        usize::MAX
    } else {
        (line + count) as usize
    }
}

/// The keyword that `text` spells, if it is a reserved word.
pub open spec fn keyword(text: Seq<char>) -> Option<TokenType> {
    if text == "and"@ {
        Some(TokenType::And)
    } else if text == "class"@ {
        Some(TokenType::Class)
    } else if text == "else"@ {
        Some(TokenType::Else)
    } else if text == "false"@ {
        Some(TokenType::False)
    } else if text == "for"@ {
        Some(TokenType::For)
    } else if text == "fun"@ {
        Some(TokenType::Fun)
    } else if text == "if"@ {
        Some(TokenType::If)
    } else if text == "nil"@ {
        Some(TokenType::Nil)
    } else if text == "or"@ {
        Some(TokenType::Or)
    } else if text == "print"@ {
        Some(TokenType::Print)
    } else if text == "return"@ {
        Some(TokenType::Return)
    } else if text == "super"@ {
        Some(TokenType::Super)
    } else if text == "this"@ {
        Some(TokenType::This)
    } else if text == "true"@ {
        Some(TokenType::True)
    } else if text == "var"@ {
        Some(TokenType::Var)
    } else if text == "while"@ {
        Some(TokenType::While)
    } else {
        None
    }
}

/// The outcome of scanning one lexeme: where the next one starts, the line
/// number there, and the token or the error that the lexeme gave, if any.
pub struct Lexed {
    pub next: int,
    pub line: usize,
    pub token: Option<TokenModel>,
    pub error: Option<ScannerError>,
}

impl Lexed {
    /// A lexeme that ends before `next` and gives a token without text.
    pub open spec fn plain(next: int, line: usize, token_type: TokenType) -> Lexed {
        Lexed { next, line, token: Some(TokenModel::plain(token_type, line)), error: None }
    }

    /// A lexeme that ends before `next` and gives nothing.
    pub open spec fn skipped(next: int, line: usize) -> Lexed {
        Lexed { next, line, token: None, error: None }
    }

    /// A lexeme that ends before `next` and gives an error.
    pub open spec fn failed(next: int, line: usize, error_type: ScannerErrorType) -> Lexed {
        Lexed { next, line, token: None, error: Some(ScannerError { line, error_type }) }
    }

    /// The operator that starts at `start`: `long` when an `=` follows its
    /// first character, `short` otherwise.
    pub open spec fn operator(
        source: Seq<char>,
        start: int,
        line: usize,
        long: TokenType,
        short: TokenType,
    ) -> Lexed {
        if followed_by(source, start + 1, '=') {
            Lexed::plain(start + 2, line, long)
        } else {
            Lexed::plain(start + 1, line, short)
        }
    }

    /// The string literal whose opening quote is at `start`. It runs to the
    /// next double quote and may span lines; its token carries the characters
    /// between the quotes and the number of the line that the closing quote is
    /// on. Without a closing quote the rest of the source is consumed and the
    /// literal is an error on the last line.
    pub open spec fn string(source: Seq<char>, start: int, line: usize) -> Lexed {
        let close = run_end(source, start + 1, CharClass::NotQuote);
        let last_line = line_after(line, newlines(source, start + 1, close));
        if close >= source.len() {
            Lexed::failed(close, last_line, ScannerErrorType::UnterminatedString)
        } else {
            Lexed {
                next: close + 1,
                line: last_line,
                token: Some(
                    TokenModel {
                        token_type: TokenType::String,
                        literal: source.subrange(start + 1, close),
                        line: last_line,
                    },
                ),
                error: None,
            }
        }
    }

    /// Where the number literal that starts at `start` ends: after its digits,
    /// and after a fraction when a dot and at least one digit follow them.
    pub open spec fn number_end(source: Seq<char>, start: int) -> int {
        let whole = run_end(source, start + 1, CharClass::Digit);
        if char_at(source, whole) == '.' && is_digit(char_at(source, whole + 1)) {
            run_end(source, whole + 1, CharClass::Digit)
        } else {
            whole
        }
    }

    /// The number literal that starts at `start`; its token carries the
    /// literal's digits as written.
    pub open spec fn number(source: Seq<char>, start: int, line: usize) -> Lexed {
        let end = Lexed::number_end(source, start);
        Lexed {
            next: end,
            line,
            token: Some(
                TokenModel {
                    token_type: TokenType::Number,
                    literal: source.subrange(start, end),
                    line,
                },
            ),
            error: None,
        }
    }

    /// The identifier or keyword that starts at `start`: its first character
    /// and the letters and digits that follow.
    pub open spec fn identifier(source: Seq<char>, start: int, line: usize) -> Lexed {
        let end = run_end(source, start + 1, CharClass::Alphanumeric);
        let name = source.subrange(start, end);
        match keyword(name) {
            Some(token_type) => Lexed::plain(end, line, token_type),
            None => Lexed {
                next: end,
                line,
                token: Some(TokenModel { token_type: TokenType::Identifier, literal: name, line }),
                error: None,
            },
        }
    }

    /// The lexeme that starts at `start`, a position inside the source, when
    /// the line number there is `line`.
    pub open spec fn at(source: Seq<char>, start: int, line: usize) -> Lexed {
        let c = source[start];
        if c == '(' {
            Lexed::plain(start + 1, line, TokenType::LeftParen)
        } else if c == ')' {
            Lexed::plain(start + 1, line, TokenType::RightParen)
        } else if c == '{' {
            Lexed::plain(start + 1, line, TokenType::LeftBrace)
        } else if c == '}' {
            Lexed::plain(start + 1, line, TokenType::RightBrace)
        } else if c == ',' {
            Lexed::plain(start + 1, line, TokenType::Comma)
        } else if c == '.' {
            Lexed::plain(start + 1, line, TokenType::Dot)
        } else if c == '-' {
            Lexed::plain(start + 1, line, TokenType::Minus)
        } else if c == '+' {
            Lexed::plain(start + 1, line, TokenType::Plus)
        } else if c == ';' {
            Lexed::plain(start + 1, line, TokenType::Semicolon)
        } else if c == '*' {
            Lexed::plain(start + 1, line, TokenType::Star)
        } else if c == '!' {
            Lexed::operator(source, start, line, TokenType::BangEqual, TokenType::Bang)
        } else if c == '=' {
            Lexed::operator(source, start, line, TokenType::EqualEqual, TokenType::Equal)
        } else if c == '<' {
            Lexed::operator(source, start, line, TokenType::LessEqual, TokenType::Less)
        } else if c == '>' {
            Lexed::operator(source, start, line, TokenType::GreaterEqual, TokenType::Greater)
        } else if c == '/' {
            if followed_by(source, start + 1, '/') {
                Lexed::skipped(run_end(source, start + 2, CharClass::NotNewline), line)
            } else {
                Lexed::plain(start + 1, line, TokenType::Slash)
            }
        } else if c == ' ' || c == '\r' || c == '\t' {
            Lexed::skipped(start + 1, line)
        } else if c == '\n' {
            Lexed::skipped(start + 1, line_after(line, 1))
        } else if c == '"' {
            Lexed::string(source, start, line)
        } else if is_digit(c) {
            Lexed::number(source, start, line)
        } else if is_alphabetic(c) || c == '_' {
            Lexed::identifier(source, start, line)
        } else {
            Lexed::failed(start + 1, line, ScannerErrorType::UnexpectedCharacter)
        }
    }
}

/// The tokens and the errors that scanning gives.
pub struct Scanned {
    pub tokens: Seq<TokenModel>,
    pub errors: Seq<ScannerError>,
}

/// `item` in front of `rest`, or `rest` alone when there is no item.
pub open spec fn prepend<T>(item: Option<T>, rest: Seq<T>) -> Seq<T> {
    match item {
        Some(first) => seq![first] + rest,
        None => rest,
    }
}

/// `items` followed by `item`, or `items` alone when there is no item.
pub open spec fn append<T>(items: Seq<T>, item: Option<T>) -> Seq<T> {
    match item {
        Some(last) => items.push(last),
        None => items,
    }
}

/// A run never ends before it starts, nor past the end of the source.
pub proof fn lemma_run_end_bounds(source: Seq<char>, from: int, class: CharClass)
    ensures
        from <= run_end(source, from, class),
        from <= source.len() ==> run_end(source, from, class) <= source.len(),
    decreases source.len() - from,
{
    if 0 <= from < source.len() && class.holds(source[from]) {
        lemma_run_end_bounds(source, from + 1, class);
    }
}

/// Every lexeme holds at least one character and ends inside the source.
pub proof fn lemma_lexeme_bounds(source: Seq<char>, start: int, line: usize)
    requires
        0 <= start < source.len(),
    ensures
        start < Lexed::at(source, start, line).next <= source.len(),
{
    lemma_run_end_bounds(source, start + 1, CharClass::NotQuote);
    lemma_run_end_bounds(source, start + 1, CharClass::Digit);
    let whole = run_end(source, start + 1, CharClass::Digit);
    lemma_run_end_bounds(source, whole + 1, CharClass::Digit);
    lemma_run_end_bounds(source, start + 1, CharClass::Alphanumeric);
    lemma_run_end_bounds(source, start + 2, CharClass::NotNewline);
}

/// The tokens and errors of the source from position `start` on, where the
/// line number is `line`: those of each lexeme in turn, and at the end of the
/// source the end-of-input token.
pub open spec fn scan_from(source: Seq<char>, start: int, line: usize) -> Scanned
    decreases source.len() - start,
{
    if 0 <= start < source.len() {
        let lexed = Lexed::at(source, start, line);
        proof {
            lemma_lexeme_bounds(source, start, line);
        }
        let rest = scan_from(source, lexed.next, lexed.line);
        Scanned {
            tokens: prepend(lexed.token, rest.tokens),
            errors: prepend(lexed.error, rest.errors),
        }
    } else {
        Scanned { tokens: seq![TokenModel::plain(TokenType::EOF, line)], errors: Seq::empty() }
    }
}

/// The tokens of a source end with the end-of-input token, and no token
/// before the last is of that kind.
pub proof fn lemma_scan_ends_with_eof(source: Seq<char>, start: int, line: usize)
    ensures
        scan_from(source, start, line).tokens.len() > 0,
        scan_from(source, start, line).tokens.last().token_type == TokenType::EOF,
        forall|i: int|
            0 <= i < scan_from(source, start, line).tokens.len() - 1 ==> (#[trigger] scan_from(
                source,
                start,
                line,
            ).tokens[i]).token_type != TokenType::EOF,
    decreases source.len() - start,
{
    if 0 <= start < source.len() {
        let lexed = Lexed::at(source, start, line);
        lemma_lexeme_bounds(source, start, line);
        lemma_scan_ends_with_eof(source, lexed.next, lexed.line);
        let rest = scan_from(source, lexed.next, lexed.line).tokens;
        let all = scan_from(source, start, line).tokens;
        match lexed.token {
            Some(token) => {
                assert(token.token_type != TokenType::EOF) by {
                    match keyword(
                        source.subrange(
                            start,
                            run_end(source, start + 1, CharClass::Alphanumeric),
                        ),
                    ) {
                        Some(word) => {
                            assert(word != TokenType::EOF);
                        },
                        None => {},
                    }
                }
                assert(all == seq![token] + rest);
                assert forall|i: int| 0 <= i < all.len() - 1 implies (#[trigger] all[i]).token_type
                    != TokenType::EOF by {
                    if i > 0 {
                        assert(all[i] == rest[i - 1]);
                    }
                }
                assert(all.last() == rest.last());
            },
            None => {},
        }
    }
}

/// The tokens and errors of a whole source text. Lines are counted from 1.
pub open spec fn scanned(source: Seq<char>) -> Scanned {
    scan_from(source, 0, 1)
}

/// A character that separates lexemes and stands for nothing: a space, a
/// carriage return or a tab.
pub open spec fn is_blank(c: char) -> bool {
    c == ' ' || c == '\r' || c == '\t'
}

/// A line comment: two slashes and the text behind them, without the line
/// feed that ends it.
pub open spec fn is_comment(text: Seq<char>) -> bool {
    &&& text.len() >= 2
    &&& text[0] == '/'
    &&& text[1] == '/'
    &&& forall|i: int| 0 <= i < text.len() ==> text[i] != '\n'
}

/// `source` with `text` put in front of position `at`.
pub open spec fn with_text(source: Seq<char>, at: int, text: Seq<char>) -> Seq<char> {
    source.subrange(0, at) + text + source.subrange(at, source.len() as int)
}

/// Whether a lexeme starts at `at`, or the source ends there, when the
/// source is scanned from `start` on.
pub open spec fn lexeme_boundary(source: Seq<char>, start: int, line: usize, at: int) -> bool
    decreases source.len() - start,
{
    if start == at {
        0 <= at <= source.len()
    } else if 0 <= start < source.len() && start < at {
        let lexed = Lexed::at(source, start, line);
        proof {
            lemma_lexeme_bounds(source, start, line);
        }
        lexeme_boundary(source, lexed.next, lexed.line, at)
    } else {
        false
    }
}

/// Whether `text` is something that may be put into `source` at the lexeme
/// boundary `at` without a change to what the source means:
///
/// - one blank, anywhere; or
/// - a line comment in a source without lexical errors, at the end of a
///   line or of the source, and not straight behind a slash, with which it
///   would run together.
pub open spec fn is_filler(source: Seq<char>, at: int, text: Seq<char>) -> bool {
    ||| text.len() == 1 && is_blank(text[0])
    ||| {
        &&& is_comment(text)
        &&& 0 <= at <= source.len()
        &&& at < source.len() ==> source[at] == '\n'
        &&& at > 0 ==> source[at - 1] != '/'
        &&& scanned(source).errors.len() == 0
    }
}

/// What the proofs below use of a filler: it holds no line feed, and it
/// starts with a blank or with the slashes of a comment that meets no slash
/// before it and a line feed, or the end, behind it.
spec fn fills(source: Seq<char>, at: int, text: Seq<char>) -> bool {
    &&& 0 <= at <= source.len()
    &&& text.len() >= 1
    &&& forall|i: int| 0 <= i < text.len() ==> text[i] != '\n'
    &&& {
        ||| text.len() == 1 && is_blank(text[0])
        ||| {
            &&& is_comment(text)
            &&& at < source.len() ==> source[at] == '\n'
            &&& at > 0 ==> source[at - 1] != '/'
        }
    }
}

/// The characters of a source with a text put in.
proof fn lemma_with_text(source: Seq<char>, at: int, text: Seq<char>)
    requires
        0 <= at <= source.len(),
    ensures
        with_text(source, at, text).len() == source.len() + text.len(),
        forall|i: int| 0 <= i < at ==> #[trigger] with_text(source, at, text)[i] == source[i],
        forall|i: int|
            at <= i < at + text.len() ==> #[trigger] with_text(source, at, text)[i] == text[i - at],
        forall|i: int|
            at + text.len() <= i < source.len() + text.len() ==> #[trigger] with_text(
                source,
                at,
                text,
            )[i] == source[i - text.len()],
{
}

/// A run passes over a stretch of characters of its class.
proof fn lemma_run_over(source: Seq<char>, from: int, to: int, class: CharClass)
    requires
        0 <= from <= to <= source.len(),
        forall|i: int| from <= i < to ==> class.holds(#[trigger] source[i]),
    ensures
        run_end(source, from, class) == run_end(source, to, class),
    decreases to - from,
{
    if from < to {
        lemma_run_over(source, from + 1, to, class);
    }
}

/// A run that ends before the place where a text is put in ends at the same
/// place. One that ends just there stops in front of a text that starts
/// outside its class, and takes in a text that lies inside its class.
proof fn lemma_run_before_text(
    source: Seq<char>,
    at: int,
    text: Seq<char>,
    from: int,
    class: CharClass,
)
    requires
        0 <= from <= at <= source.len(),
        text.len() >= 1,
        run_end(source, from, class) <= at,
        run_end(source, from, class) == at ==> !class.holds(text[0]) || forall|i: int|
            0 <= i < text.len() ==> class.holds(#[trigger] text[i]),
    ensures
        run_end(with_text(source, at, text), from, class) == if run_end(source, from, class) == at
            && class.holds(text[0]) {
            at + text.len()
        } else {
            run_end(source, from, class)
        },
    decreases at - from,
{
    let changed = with_text(source, at, text);
    lemma_with_text(source, at, text);
    lemma_run_end_bounds(source, from, class);
    if from < at {
        assert(changed[from] == source[from]);
        if class.holds(source[from]) {
            lemma_run_before_text(source, at, text, from + 1, class);
        }
    } else {
        lemma_run_end_bounds(source, at + 1, class);
        assert(run_end(source, at, class) == at);
        assert(changed[at] == text[0]);
        if class.holds(text[0]) {
            let behind = at + text.len();
            assert forall|i: int| at <= i < behind implies class.holds(#[trigger] changed[i]) by {
                assert(changed[i] == text[i - at]);
            }
            lemma_run_over(changed, at, behind, class);
            if at < source.len() {
                assert(changed[behind] == source[at]);
                assert(!class.holds(source[at]));
            }
            assert(run_end(changed, behind, class) == behind);
        }
    }
}

/// Behind a text that was put in, every run ends as many places later as
/// the text is long.
proof fn lemma_run_behind_text(
    source: Seq<char>,
    at: int,
    text: Seq<char>,
    from: int,
    class: CharClass,
)
    requires
        0 <= at <= from,
        at <= source.len(),
    ensures
        run_end(with_text(source, at, text), from + text.len(), class) == run_end(
            source,
            from,
            class,
        ) + text.len(),
    decreases source.len() - from,
{
    let changed = with_text(source, at, text);
    lemma_with_text(source, at, text);
    if from < source.len() {
        assert(changed[from + text.len()] == source[from]);
        if class.holds(source[from]) {
            lemma_run_behind_text(source, at, text, from + 1, class);
        }
    }
}

/// A text without line feeds adds none to a stretch that ends in front of
/// it, nor to one that ends just behind it.
proof fn lemma_newlines_before_text(
    source: Seq<char>,
    at: int,
    text: Seq<char>,
    from: int,
    to: int,
)
    requires
        forall|i: int| 0 <= i < text.len() ==> text[i] != '\n',
        0 <= from <= to <= at <= source.len(),
    ensures
        newlines(with_text(source, at, text), from, to) == newlines(source, from, to),
        to == at ==> newlines(with_text(source, at, text), from, at + text.len()) == newlines(
            source,
            from,
            at,
        ),
    decreases to - from,
{
    lemma_with_text(source, at, text);
    let changed = with_text(source, at, text);
    if from < to {
        lemma_newlines_before_text(source, at, text, from, to - 1);
        assert(changed[to - 1] == source[to - 1]);
    }
    if to == at {
        lemma_newlines_over_text(source, at, text, from, text.len() as int);
    }
}

/// The line feeds of a stretch that ends inside or just behind a text that
/// was put in are those in front of the text.
proof fn lemma_newlines_over_text(
    source: Seq<char>,
    at: int,
    text: Seq<char>,
    from: int,
    taken: int,
)
    requires
        forall|i: int| 0 <= i < text.len() ==> text[i] != '\n',
        0 <= from <= at <= source.len(),
        0 <= taken <= text.len(),
    ensures
        newlines(with_text(source, at, text), from, at + taken) == newlines(
            with_text(source, at, text),
            from,
            at,
        ),
    decreases taken,
{
    lemma_with_text(source, at, text);
    let changed = with_text(source, at, text);
    if taken > 0 {
        lemma_newlines_over_text(source, at, text, from, taken - 1);
        assert(changed[at + taken - 1] == text[taken - 1]);
    }
}

/// Behind a text that was put in, a stretch as many places later holds the
/// same line feeds.
proof fn lemma_newlines_behind_text(
    source: Seq<char>,
    at: int,
    text: Seq<char>,
    from: int,
    to: int,
)
    requires
        0 <= at <= from <= to <= source.len(),
    ensures
        newlines(with_text(source, at, text), from + text.len(), to + text.len()) == newlines(
            source,
            from,
            to,
        ),
    decreases to - from,
{
    lemma_with_text(source, at, text);
    let changed = with_text(source, at, text);
    if from < to {
        lemma_newlines_behind_text(source, at, text, from, to - 1);
        assert(changed[to - 1 + text.len()] == source[to - 1]);
    }
}

/// A lexeme that ends at or before the place of a filler is the same lexeme
/// with the filler put in; it ends at the same place, or, where it ends just
/// at the filler and takes it in, behind the filler.
proof fn lemma_lexeme_before_text(
    source: Seq<char>,
    at: int,
    text: Seq<char>,
    start: int,
    line: usize,
)
    requires
        fills(source, at, text),
        0 <= start < at,
        Lexed::at(source, start, line).next <= at,
        is_blank(text[0]) || Lexed::at(source, start, line).error is None,
    ensures
        ({
            let lexed = Lexed::at(source, start, line);
            let changed = Lexed::at(with_text(source, at, text), start, line);
            &&& changed.token == lexed.token
            &&& changed.error == lexed.error
            &&& changed.line == lexed.line
            &&& changed.next == lexed.next || (lexed.next == at && changed.next == at + text.len())
        }),
{
    let changed = with_text(source, at, text);
    lemma_with_text(source, at, text);
    let c = source[start];
    let first = text[0];
    assert(changed[start] == c);
    assert(changed[at] == first);
    assert(is_blank(first) || first == '/');
    if start + 1 < at {
        assert(changed[start + 1] == source[start + 1]);
    }
    if c == '!' || c == '=' || c == '<' || c == '>' {
        assert(followed_by(changed, start + 1, '=') == followed_by(source, start + 1, '='));
    } else if c == '/' {
        lemma_run_end_bounds(source, start + 2, CharClass::NotNewline);
        assert(followed_by(changed, start + 1, '/') == followed_by(source, start + 1, '/'));
        if followed_by(source, start + 1, '/') {
            lemma_run_before_text(source, at, text, start + 2, CharClass::NotNewline);
        }
    } else if c == '"' {
        let close = run_end(source, start + 1, CharClass::NotQuote);
        lemma_run_end_bounds(source, start + 1, CharClass::NotQuote);
        assert(Lexed::at(source, start, line) == Lexed::string(source, start, line));
        assert(close <= at);
        if close < source.len() {
            assert(close < at);
            lemma_run_before_text(source, at, text, start + 1, CharClass::NotQuote);
            lemma_newlines_before_text(source, at, text, start + 1, close);
            assert(changed.subrange(start + 1, close) =~= source.subrange(start + 1, close));
        } else {
            assert(close == at);
            assert(is_blank(first));
            lemma_run_before_text(source, at, text, start + 1, CharClass::NotQuote);
            lemma_newlines_before_text(source, at, text, start + 1, close);
            assert(run_end(changed, start + 1, CharClass::NotQuote) == at + 1);
        }
    } else if is_digit(c) {
        let whole = run_end(source, start + 1, CharClass::Digit);
        lemma_run_end_bounds(source, start + 1, CharClass::Digit);
        lemma_run_end_bounds(source, whole + 1, CharClass::Digit);
        lemma_run_end_bounds(source, whole + 2, CharClass::Digit);
        assert(Lexed::at(source, start, line) == Lexed::number(source, start, line));
        let end = Lexed::number_end(source, start);
        assert(whole <= end <= at);
        lemma_run_before_text(source, at, text, start + 1, CharClass::Digit);
        assert(run_end(changed, start + 1, CharClass::Digit) == whole);
        if whole < at {
            assert(char_at(changed, whole) == char_at(source, whole));
            if whole + 1 < at {
                assert(char_at(changed, whole + 1) == char_at(source, whole + 1));
                if end != whole {
                    lemma_run_before_text(source, at, text, whole + 1, CharClass::Digit);
                }
            } else {
                assert(char_at(changed, whole + 1) == first);
            }
        } else {
            assert(char_at(changed, whole) == first);
        }
        assert(Lexed::number_end(changed, start) == end);
        assert(changed.subrange(start, end) =~= source.subrange(start, end));
    } else if is_alphabetic(c) || c == '_' {
        let end = run_end(source, start + 1, CharClass::Alphanumeric);
        lemma_run_end_bounds(source, start + 1, CharClass::Alphanumeric);
        assert(Lexed::at(source, start, line) == Lexed::identifier(source, start, line));
        assert(Lexed::identifier(source, start, line).next == end);
        lemma_run_before_text(source, at, text, start + 1, CharClass::Alphanumeric);
        assert(changed.subrange(start, end) =~= source.subrange(start, end));
    }
}

/// Behind a text that was put in, every lexeme is the same lexeme as many
/// places later as the text is long.
proof fn lemma_lexeme_behind_text(
    source: Seq<char>,
    at: int,
    text: Seq<char>,
    start: int,
    line: usize,
)
    requires
        0 <= at <= start < source.len(),
    ensures
        ({
            let lexed = Lexed::at(source, start, line);
            let changed = Lexed::at(with_text(source, at, text), start + text.len(), line);
            &&& changed.token == lexed.token
            &&& changed.error == lexed.error
            &&& changed.line == lexed.line
            &&& changed.next == lexed.next + text.len()
        }),
{
    let changed = with_text(source, at, text);
    let shift = text.len() as int;
    lemma_with_text(source, at, text);
    let c = source[start];
    assert(changed[start + shift] == c);
    if start + 1 < source.len() {
        assert(changed[start + 1 + shift] == source[start + 1]);
    }
    assert(followed_by(changed, start + 1 + shift, '=') == followed_by(source, start + 1, '='));
    assert(followed_by(changed, start + 1 + shift, '/') == followed_by(source, start + 1, '/'));
    if c == '/' && followed_by(source, start + 1, '/') {
        lemma_run_behind_text(source, at, text, start + 2, CharClass::NotNewline);
    } else if c == '"' {
        let close = run_end(source, start + 1, CharClass::NotQuote);
        lemma_run_end_bounds(source, start + 1, CharClass::NotQuote);
        lemma_run_behind_text(source, at, text, start + 1, CharClass::NotQuote);
        lemma_newlines_behind_text(source, at, text, start + 1, close);
        if close < source.len() {
            assert(changed.subrange(start + 1 + shift, close + shift) =~= source.subrange(
                start + 1,
                close,
            ));
        }
    } else if is_digit(c) {
        let whole = run_end(source, start + 1, CharClass::Digit);
        lemma_run_end_bounds(source, start + 1, CharClass::Digit);
        lemma_run_end_bounds(source, whole + 1, CharClass::Digit);
        lemma_run_behind_text(source, at, text, start + 1, CharClass::Digit);
        lemma_run_behind_text(source, at, text, whole + 1, CharClass::Digit);
        assert(char_at(changed, whole + shift) == char_at(source, whole)) by {
            if whole < source.len() {
                assert(changed[whole + shift] == source[whole]);
            }
        }
        assert(char_at(changed, whole + 1 + shift) == char_at(source, whole + 1)) by {
            if whole + 1 < source.len() {
                assert(changed[whole + 1 + shift] == source[whole + 1]);
            }
        }
        let end = Lexed::number_end(source, start);
        assert(Lexed::number_end(changed, start + shift) == end + shift);
        assert(changed.subrange(start + shift, end + shift) =~= source.subrange(start, end));
    } else if is_alphabetic(c) || c == '_' {
        let end = run_end(source, start + 1, CharClass::Alphanumeric);
        lemma_run_end_bounds(source, start + 1, CharClass::Alphanumeric);
        lemma_run_behind_text(source, at, text, start + 1, CharClass::Alphanumeric);
        assert(changed.subrange(start + shift, end + shift) =~= source.subrange(start, end));
    }
}

/// Behind a text that was put in, scanning gives what it gave without the
/// text.
proof fn lemma_scan_behind_text(source: Seq<char>, at: int, text: Seq<char>, start: int, line: usize)
    requires
        0 <= at <= start <= source.len(),
    ensures
        scan_from(with_text(source, at, text), start + text.len(), line) == scan_from(
            source,
            start,
            line,
        ),
    decreases source.len() - start,
{
    lemma_with_text(source, at, text);
    if start < source.len() {
        lemma_lexeme_behind_text(source, at, text, start, line);
        lemma_lexeme_bounds(source, start, line);
        let lexed = Lexed::at(source, start, line);
        lemma_scan_behind_text(source, at, text, lexed.next, lexed.line);
    }
}

/// A filler that is scanned where it was put in gives nothing: scanning
/// goes on behind it, on the same line.
proof fn lemma_scan_over_filler(source: Seq<char>, at: int, text: Seq<char>, line: usize)
    requires
        fills(source, at, text),
    ensures
        scan_from(with_text(source, at, text), at, line) == scan_from(
            with_text(source, at, text),
            at + text.len(),
            line,
        ),
{
    let changed = with_text(source, at, text);
    let behind = at + text.len();
    lemma_with_text(source, at, text);
    assert(changed[at] == text[0]);
    if is_blank(text[0]) && text.len() == 1 {
        assert(Lexed::at(changed, at, line) == Lexed::skipped(at + 1, line));
    } else {
        assert(changed[at + 1] == text[1]);
        assert forall|i: int| at + 2 <= i < behind implies CharClass::NotNewline.holds(
            #[trigger] changed[i],
        ) by {
            assert(changed[i] == text[i - at]);
        }
        lemma_run_over(changed, at + 2, behind, CharClass::NotNewline);
        if at < source.len() {
            assert(changed[behind] == source[at]);
        }
        assert(run_end(changed, behind, CharClass::NotNewline) == behind);
        assert(Lexed::at(changed, at, line) == Lexed::skipped(behind, line));
    }
}

/// From a place in front of a lexeme boundary on, scanning gives the same
/// with a filler put in at the boundary.
proof fn lemma_scan_before_text(source: Seq<char>, at: int, text: Seq<char>, start: int, line: usize)
    requires
        fills(source, at, text),
        0 <= start,
        lexeme_boundary(source, start, line, at),
        is_blank(text[0]) || scan_from(source, start, line).errors.len() == 0,
    ensures
        scan_from(with_text(source, at, text), start, line) == scan_from(source, start, line),
    decreases source.len() - start,
{
    let changed = with_text(source, at, text);
    lemma_boundary_ahead(source, start, line, at);
    lemma_with_text(source, at, text);
    if start == at {
        lemma_scan_over_filler(source, at, text, line);
        lemma_scan_behind_text(source, at, text, at, line);
    } else {
        let lexed = Lexed::at(source, start, line);
        lemma_lexeme_bounds(source, start, line);
        lemma_boundary_ahead(source, lexed.next, lexed.line, at);
        let rest = scan_from(source, lexed.next, lexed.line);
        assert(scan_from(source, start, line).errors == prepend(lexed.error, rest.errors));
        lemma_lexeme_before_text(source, at, text, start, line);
        if Lexed::at(changed, start, line).next == lexed.next {
            lemma_scan_before_text(source, at, text, lexed.next, lexed.line);
        } else {
            lemma_scan_behind_text(source, at, text, at, lexed.line);
        }
    }
}

/// A boundary that is found from `start` on does not lie before `start`, nor
/// behind the end of the source.
proof fn lemma_boundary_ahead(source: Seq<char>, start: int, line: usize, at: int)
    requires
        lexeme_boundary(source, start, line, at),
    ensures
        start <= at <= source.len(),
    decreases source.len() - start,
{
    if start != at {
        lemma_lexeme_bounds(source, start, line);
        let lexed = Lexed::at(source, start, line);
        lemma_boundary_ahead(source, lexed.next, lexed.line, at);
    }
}

/// Scanning does not depend on what stands between lexemes. A blank put in
/// where a lexeme starts, or at the end of the source, changes neither the
/// tokens, with their texts and lines, nor the errors; nor does a line
/// comment put in at the end of a line of a source without lexical errors.
/// What is parsed from the tokens is then the same as well.
pub proof fn lemma_filler_between_lexemes(source: Seq<char>, at: int, text: Seq<char>)
    requires
        lexeme_boundary(source, 0, 1, at),
        is_filler(source, at, text),
    ensures
        scanned(with_text(source, at, text)) == scanned(source),
        program(scanned(with_text(source, at, text)).tokens, 0, Seq::empty()) == program(
            scanned(source).tokens,
            0,
            Seq::empty(),
        ),
{
    lemma_boundary_ahead(source, 0, 1, at);
    lemma_scan_before_text(source, at, text, 0, 1);
}

/// Whether `c` is an ASCII decimal digit.
pub fn is_ascii_digit(c: char) -> (digit: bool)
    ensures
        digit == is_digit(c),
{
    '0' <= c && c <= '9'
}

/// Whether `c` is an ASCII letter.
pub fn is_ascii_alphabetic(c: char) -> (letter: bool)
    ensures
        letter == is_alphabetic(c),
{
    ('a' <= c && c <= 'z') || ('A' <= c && c <= 'Z')
}

/// Whether `c` is an ASCII letter or digit.
pub fn is_ascii_alphanumeric(c: char) -> (either: bool)
    ensures
        either == is_alphanumeric(c),
{
    is_ascii_alphabetic(c) || is_ascii_digit(c)
}

/// The line after `line`, unless `line` is the last one that can be counted.
fn next_line(line: usize) -> (next: usize)
    ensures
        next == line_after(line, 1),
{
    if line < usize::MAX {
        line + 1
    } else {
        line
    }
}

/// Counting `a` lines and then `b` more is counting `a + b` lines.
proof fn lemma_line_after_twice(line: usize, a: nat, b: nat)
    ensures
        line_after(line_after(line, a), b) == line_after(line, a + b),
{
}

/// A run that passes over a character of its class continues behind it.
proof fn lemma_run_end_step(source: Seq<char>, from: int, class: CharClass)
    requires
        0 <= from < source.len(),
        class.holds(source[from]),
    ensures
        run_end(source, from, class) == run_end(source, from + 1, class),
{
}

/// A run stops at the end of the source and at a character outside its class.
proof fn lemma_run_end_stop(source: Seq<char>, from: int, class: CharClass)
    requires
        !(0 <= from < source.len() && class.holds(source[from])),
    ensures
        run_end(source, from, class) == from,
{
}

/// Turns source text into tokens, one lexeme at a time.
pub struct Scanner {
    source: Vec<char>,
    tokens: Vec<Token>,
    start: usize,
    current: usize,
    line: usize,
    errors: Vec<ScannerError>,
}

impl Scanner {
    /// The lexeme under way starts inside the source and the cursor is not
    /// before it.
    spec fn well_formed(&self) -> bool {
        self.start <= self.current <= self.source@.len()
    }

    /// The scanner is at `at` in the source of `before`, and nothing else has
    /// changed since `before`.
    spec fn moved_to(&self, before: &Scanner, at: int) -> bool {
        &&& self.source == before.source
        &&& self.tokens == before.tokens
        &&& self.start == before.start
        &&& self.current == at
        &&& self.line == before.line
        &&& self.errors == before.errors
    }

    /// The scanner has taken the lexeme `lexed` in since `before`.
    spec fn took(&self, before: &Scanner, lexed: Lexed) -> bool {
        &&& self.source == before.source
        &&& self.start == before.start
        &&& self.current == lexed.next
        &&& self.line == lexed.line
        &&& token_models(self.tokens@) == append(token_models(before.tokens@), lexed.token)
        &&& self.errors@ == append(before.errors@, lexed.error)
    }

    /// Scans `source`. The result is the token list, which ends in the
    /// end-of-input token, or, when the source has lexical errors, all of
    /// them in source order.
    pub fn scan(source: &str) -> (result: Result<Vec<Token>, Vec<ScannerError>>)
        ensures
            match result {
                Ok(tokens) => {
                    &&& scanned(source@).errors.len() == 0
                    &&& token_models(tokens@) == scanned(source@).tokens
                    &&& tokens@.len() > 0
                    &&& tokens@.last().token_type == TokenType::EOF
                },
                Err(errors) => {
                    &&& errors@.len() > 0
                    &&& errors@ == scanned(source@).errors
                },
            },
    {
        let mut scanner = Scanner::new(source);
        scanner.scan_tokens();
        proof {
            lemma_scan_ends_with_eof(source@, 0, 1);
            let models = token_models(scanner.tokens@);
            assert(models.last() == scanner.tokens@.last()@);
        }
        if scanner.errors.is_empty() {
            Ok(scanner.tokens)
        } else {
            Err(scanner.errors)
        }
    }

    fn new(source: &str) -> (scanner: Scanner)
        ensures
            scanner.source@ == source@,
            scanner.tokens@.len() == 0,
            scanner.errors@.len() == 0,
            scanner.start == 0,
            scanner.current == 0,
            scanner.line == 1,
    {
        Scanner {
            source: to_chars(source),
            tokens: Vec::new(),
            start: 0,
            current: 0,
            line: 1,
            errors: Vec::new(),
        }
    }

    fn scan_tokens(&mut self)
        requires
            old(self).tokens@.len() == 0,
            old(self).errors@.len() == 0,
            old(self).start == 0,
            old(self).current == 0,
            old(self).line == 1,
        ensures
            final(self).source == old(self).source,
            token_models(final(self).tokens@) == scanned(old(self).source@).tokens,
            final(self).errors@ == scanned(old(self).source@).errors,
    {
        let ghost source = self.source@;
        assert(token_models(self.tokens@) + scanned(source).tokens =~= scanned(source).tokens);
        assert(self.errors@ + scanned(source).errors =~= scanned(source).errors);
        while !self.is_at_end()
            invariant
                self.source@ == source,
                self.source == old(self).source,
                self.current <= source.len(),
                token_models(self.tokens@) + scan_from(
                    source,
                    self.current as int,
                    self.line,
                ).tokens == scanned(source).tokens,
                self.errors@ + scan_from(source, self.current as int, self.line).errors == scanned(
                    source,
                ).errors,
            decreases source.len() - self.current,
        {
            self.start = self.current;
            let ghost before = *self;
            self.scan_token();
            proof {
                let lexed = Lexed::at(source, before.current as int, before.line);
                let rest = scan_from(source, lexed.next, lexed.line);
                lemma_lexeme_bounds(source, before.current as int, before.line);
                assert(append(token_models(before.tokens@), lexed.token) + rest.tokens
                    =~= token_models(before.tokens@) + prepend(lexed.token, rest.tokens));
                assert(append(before.errors@, lexed.error) + rest.errors =~= before.errors@
                    + prepend(lexed.error, rest.errors));
            }
        }
        let ghost before = *self;
        self.add_token(TokenType::EOF);
        proof {
            assert(token_models(before.tokens@) + seq![TokenModel::plain(TokenType::EOF, self.line)]
                =~= token_models(self.tokens@));
            assert(self.errors@ + Seq::<ScannerError>::empty() =~= self.errors@);
        }
    }

    fn is_at_end(&self) -> (at_end: bool)
        ensures
            at_end == (self.current >= self.source@.len()),
    {
        self.current >= self.source.len()
    }

    fn scan_token(&mut self)
        requires
            old(self).start == old(self).current,
            old(self).current < old(self).source@.len(),
        ensures
            final(self).took(
                old(self),
                Lexed::at(old(self).source@, old(self).start as int, old(self).line),
            ),
    {
        let ghost before = *self;
        let ghost source = self.source@;
        let c = self.advance();
        match c {
            '(' => self.add_token(TokenType::LeftParen),
            ')' => self.add_token(TokenType::RightParen),
            '{' => self.add_token(TokenType::LeftBrace),
            '}' => self.add_token(TokenType::RightBrace),
            ',' => self.add_token(TokenType::Comma),
            '.' => self.add_token(TokenType::Dot),
            '-' => self.add_token(TokenType::Minus),
            '+' => self.add_token(TokenType::Plus),
            ';' => self.add_token(TokenType::Semicolon),
            '*' => self.add_token(TokenType::Star),
            '!' => self.matches_equal(TokenType::BangEqual, TokenType::Bang),
            '=' => self.matches_equal(TokenType::EqualEqual, TokenType::Equal),
            '<' => self.matches_equal(TokenType::LessEqual, TokenType::Less),
            '>' => self.matches_equal(TokenType::GreaterEqual, TokenType::Greater),
            '/' => {
                if self.match_char('/') {
                    while self.peek() != '\n' && !self.is_at_end()
                        invariant
                            self.moved_to(&before, self.current as int),
                            before.start + 2 <= self.current <= source.len(),
                            source == before.source@,
                            run_end(source, self.current as int, CharClass::NotNewline) == run_end(
                                source,
                                before.start + 2,
                                CharClass::NotNewline,
                            ),
                        decreases source.len() - self.current,
                    {
                        proof {
                            lemma_run_end_step(source, self.current as int, CharClass::NotNewline);
                        }
                        self.advance();
                    }
                    proof {
                        lemma_run_end_stop(source, self.current as int, CharClass::NotNewline);
                    }
                } else {
                    self.add_token(TokenType::Slash)
                }
            },
            ' ' | '\r' | '\t' => (),
            '\n' => {
                self.line = next_line(self.line);
            },
            '"' => self.string(),
            _ => {
                if is_ascii_digit(c) {
                    self.number()
                } else if is_ascii_alphabetic(c) || c == '_' {
                    self.identifier()
                } else {
                    self.errors.push(
                        ScannerError {
                            line: self.line,
                            error_type: ScannerErrorType::UnexpectedCharacter,
                        },
                    );
                }
            },
        }
    }

    /// Emits `long` when the next character is `=`, which it consumes, and
    /// `short` otherwise.
    fn matches_equal(&mut self, long: TokenType, short: TokenType)
        requires
            old(self).start + 1 == old(self).current,
            old(self).current <= old(self).source@.len(),
        ensures
            final(self).took(
                old(self),
                Lexed::operator(old(self).source@, old(self).start as int, old(self).line, long, short),
            ),
    {
        if self.match_char('=') {
            self.add_token(long)
        } else {
            self.add_token(short)
        }
    }

    fn match_char(&mut self, expected: char) -> (matched: bool)
        requires
            old(self).current <= old(self).source@.len(),
        ensures
            matched == followed_by(old(self).source@, old(self).current as int, expected),
            final(self).moved_to(
                old(self),
                if matched {
                    old(self).current + 1
                } else {
                    old(self).current as int
                },
            ),
    {
        if self.current >= self.source.len() {
            return false;
        }
        self.current += 1;
        if self.current_char() != expected {
            self.current -= 1;
            return false;
        }
        true
    }

    fn advance(&mut self) -> (c: char)
        requires
            old(self).current < old(self).source@.len(),
        ensures
            c == old(self).source@[old(self).current as int],
            final(self).moved_to(old(self), old(self).current + 1),
    {
        let length = self.source.len();
        assert(self.current < length);
        self.current += 1;
        self.current_char()
    }

    fn add_token(&mut self, token: TokenType)
        ensures
            final(self).took(
                old(self),
                Lexed::plain(old(self).current as int, old(self).line, token),
            ),
            final(self).errors == old(self).errors,
    {
        let ghost models = token_models(self.tokens@);
        self.tokens.push(Token::plain(token, self.line));
        proof {
            assert(token_models(self.tokens@) =~= models.push(
                TokenModel::plain(token, self.line),
            ));
        }
    }

    /// The character that was consumed last.
    fn current_char(&self) -> (c: char)
        requires
            0 < self.current <= self.source@.len(),
        ensures
            c == self.source@[self.current - 1],
    {
        self.source[self.current - 1]
    }

    fn peek(&self) -> (c: char)
        ensures
            c == char_at(self.source@, self.current as int),
    {
        if self.is_at_end() {
            return '\0';
        }
        self.source[self.current]
    }

    fn peek_next(&self) -> (c: char)
        ensures
            c == char_at(self.source@, self.current + 1),
    {
        if self.current >= self.source.len() || self.current + 1 >= self.source.len() {
            return '\0';
        }
        self.source[self.current + 1]
    }

    fn string(&mut self)
        requires
            old(self).start + 1 == old(self).current,
            old(self).current <= old(self).source@.len(),
        ensures
            final(self).took(
                old(self),
                Lexed::string(old(self).source@, old(self).start as int, old(self).line),
            ),
    {
        let ghost before = *self;
        let ghost source = self.source@;
        while self.peek() != '"' && !self.is_at_end()
            invariant
                self.source == before.source,
                self.tokens == before.tokens,
                self.errors == before.errors,
                self.start == before.start,
                source == before.source@,
                before.start + 1 <= self.current <= source.len(),
                self.line == line_after(
                    before.line,
                    newlines(source, before.start + 1, self.current as int),
                ),
                run_end(source, self.current as int, CharClass::NotQuote) == run_end(
                    source,
                    before.start + 1,
                    CharClass::NotQuote,
                ),
            decreases source.len() - self.current,
        {
            proof {
                lemma_run_end_step(source, self.current as int, CharClass::NotQuote);
                lemma_line_after_twice(
                    before.line,
                    newlines(source, before.start + 1, self.current as int),
                    1,
                );
            }
            if self.peek() == '\n' {
                self.line = next_line(self.line);
            }
            self.advance();
        }
        proof {
            lemma_run_end_stop(source, self.current as int, CharClass::NotQuote);
        }

        if self.is_at_end() {
            self.errors.push(
                ScannerError { line: self.line, error_type: ScannerErrorType::UnterminatedString },
            );
            return ;
        }
        self.advance();

        let value = collect_text(&self.source, self.start + 1, self.current - 1);
        let ghost models = token_models(self.tokens@);
        let token = Token::new(TokenType::String, value, self.line);
        self.tokens.push(token);
        proof {
            assert(token_models(self.tokens@) =~= models.push(token@));
        }
    }

    fn number(&mut self)
        requires
            old(self).start + 1 == old(self).current,
            old(self).current <= old(self).source@.len(),
        ensures
            final(self).took(
                old(self),
                Lexed::number(old(self).source@, old(self).start as int, old(self).line),
            ),
    {
        let ghost before = *self;
        let ghost source = self.source@;
        while is_ascii_digit(self.peek())
            invariant
                self.moved_to(&before, self.current as int),
                source == before.source@,
                before.start + 1 <= self.current <= source.len(),
                run_end(source, self.current as int, CharClass::Digit) == run_end(
                    source,
                    before.start + 1,
                    CharClass::Digit,
                ),
            decreases source.len() - self.current,
        {
            proof {
                lemma_run_end_step(source, self.current as int, CharClass::Digit);
            }
            self.advance();
        }
        proof {
            lemma_run_end_stop(source, self.current as int, CharClass::Digit);
        }

        if self.peek() == '.' && is_ascii_digit(self.peek_next()) {
            let ghost whole = self.current;
            self.advance();
            while is_ascii_digit(self.peek())
                invariant
                    self.moved_to(&before, self.current as int),
                    source == before.source@,
                    whole + 1 <= self.current <= source.len(),
                    run_end(source, self.current as int, CharClass::Digit) == run_end(
                        source,
                        whole + 1,
                        CharClass::Digit,
                    ),
                decreases source.len() - self.current,
            {
                proof {
                    lemma_run_end_step(source, self.current as int, CharClass::Digit);
                }
                self.advance();
            }
            proof {
                lemma_run_end_stop(source, self.current as int, CharClass::Digit);
            }
        }
        let value = collect_text(&self.source, self.start, self.current);
        let ghost models = token_models(self.tokens@);
        let token = Token::new(TokenType::Number, value, self.line);
        self.tokens.push(token);
        proof {
            assert(token_models(self.tokens@) =~= models.push(token@));
        }
    }

    fn identifier(&mut self)
        requires
            old(self).start + 1 == old(self).current,
            old(self).current <= old(self).source@.len(),
        ensures
            final(self).took(
                old(self),
                Lexed::identifier(old(self).source@, old(self).start as int, old(self).line),
            ),
    {
        let ghost before = *self;
        let ghost source = self.source@;
        while is_ascii_alphanumeric(self.peek())
            invariant
                self.moved_to(&before, self.current as int),
                source == before.source@,
                before.start + 1 <= self.current <= source.len(),
                run_end(source, self.current as int, CharClass::Alphanumeric) == run_end(
                    source,
                    before.start + 1,
                    CharClass::Alphanumeric,
                ),
            decreases source.len() - self.current,
        {
            proof {
                lemma_run_end_step(source, self.current as int, CharClass::Alphanumeric);
            }
            self.advance();
        }
        proof {
            lemma_run_end_stop(source, self.current as int, CharClass::Alphanumeric);
        }
        let value = collect_text(&self.source, self.start, self.current);

        if let Some(token_type) = Scanner::default_identifier(value.as_str()) {
            self.add_token(token_type);
        } else {
            let ghost models = token_models(self.tokens@);
            let token = Token::new(TokenType::Identifier, value, self.line);
            self.tokens.push(token);
            proof {
                assert(token_models(self.tokens@) =~= models.push(token@));
            }
        }
    }

    /// The keyword that `identifier` spells, if it is a reserved word.
    fn default_identifier(identifier: &str) -> (word: Option<TokenType>)
        ensures
            word == keyword(identifier@),
    {
        if same_text(identifier, "and") {
            Some(TokenType::And)
        } else if same_text(identifier, "class") {
            Some(TokenType::Class)
        } else if same_text(identifier, "else") {
            Some(TokenType::Else)
        } else if same_text(identifier, "false") {
            Some(TokenType::False)
        } else if same_text(identifier, "for") {
            Some(TokenType::For)
        } else if same_text(identifier, "fun") {
            Some(TokenType::Fun)
        } else if same_text(identifier, "if") {
            Some(TokenType::If)
        } else if same_text(identifier, "nil") {
            Some(TokenType::Nil)
        } else if same_text(identifier, "or") {
            Some(TokenType::Or)
        } else if same_text(identifier, "print") {
            Some(TokenType::Print)
        } else if same_text(identifier, "return") {
            Some(TokenType::Return)
        } else if same_text(identifier, "super") {
            Some(TokenType::Super)
        } else if same_text(identifier, "this") {
            Some(TokenType::This)
        } else if same_text(identifier, "true") {
            Some(TokenType::True)
        } else if same_text(identifier, "var") {
            Some(TokenType::Var)
        } else if same_text(identifier, "while") {
            Some(TokenType::While)
        } else {
            None
        }
    }
}


} // verus!
