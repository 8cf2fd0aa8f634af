//! The lexical grammar, stated as a mathematical function from a sequence of
//! characters to a sequence of lexemes (or a lexical fault).
//!
//! The tokenizer is a state machine with one mode active at a time.  The
//! function [`resume`] gives, for a position in the text and the mode active
//! there, everything that is still to be produced from that point on;
//! [`tokenize`] is `resume` at the start of the text.

use crate::chars::is_digit;
use crate::lexer::LexErrorKind;
use crate::lexer::TokenType;
use vstd::prelude::*;

verus! {

/// A place in the source text.  `column` counts the characters consumed on the
/// current line; a newline character itself sits at column 0 of the line it
/// opens.
pub struct Position {
    pub line: int,
    pub column: int,
}

/// What a token is, independent of how its text is stored.
pub struct Lexeme {
    pub kind: TokenType,
    pub text: Seq<char>,
    pub column: int,
    pub line: int,
}

/// A lexical fault and the place where it was raised.
pub struct LexFault {
    pub kind: LexErrorKind,
    pub line: int,
    pub column: int,
}

/// The mode the tokenizer is in.  `start` is the index of the first character
/// of the token being accumulated.
pub enum Mode {
    /// Between tokens.
    Idle,
    /// Inside a number; `float` tells the sub-mode.
    Number { start: int, float: bool },
    /// Inside an identifier.
    Identifier { start: int },
    /// Inside a string literal; `text` is the content accumulated so far,
    /// escapes already resolved.
    Text { start: int, text: Seq<char> },
    /// Inside a line comment.
    Comment,
}

pub open spec fn is_identifier_char(c: char) -> bool {
    ('a' <= c && c <= 'z') || ('A' <= c && c <= 'Z') || c == '_' || is_digit(c)
}

pub open spec fn is_blank(c: char) -> bool {
    c == ' ' || c == '\n' || c == '\t'
}

/// The fixed symbol table.
pub open spec fn symbol_kind(c: char) -> Option<TokenType> {
    if c == '+' {
        Some(TokenType::AddOperation)
    } else if c == '-' {
        Some(TokenType::SubOperation)
    } else if c == '>' {
        Some(TokenType::MovRightOperation)
    } else if c == '<' {
        Some(TokenType::MovLeftOperation)
    } else if c == '.' {
        Some(TokenType::PrintOut)
    } else if c == '(' {
        Some(TokenType::ParenthesisOpen)
    } else if c == ')' {
        Some(TokenType::ParenthesisClose)
    } else if c == ',' {
        Some(TokenType::SeparatorComma)
    } else if c == '{' {
        Some(TokenType::CurlyBracketOpen)
    } else if c == '}' {
        Some(TokenType::CurlyBracketClose)
    } else if c == '[' {
        Some(TokenType::BracketOpen)
    } else if c == ']' {
        Some(TokenType::BracketClose)
    } else if c == ':' {
        Some(TokenType::Colon)
    } else if c == ';' {
        Some(TokenType::SemiColon)
    } else if c == '&' {
        Some(TokenType::FunctionCall)
    } else {
        None
    }
}

/// The line counter once `s[i]` has been consumed: 1 plus the number of
/// newlines in `s[0..=i]`.
pub open spec fn line_of(s: Seq<char>, i: int) -> int
    decreases i + 1,
{
    if i < 0 || i >= s.len() {
        1
    } else if s[i] == '\n' {
        line_of(s, i - 1) + 1
    } else {
        line_of(s, i - 1)
    }
}

/// The column counter once `s[i]` has been consumed: the number of characters
/// after the last newline in `s[0..=i]`.
pub open spec fn column_of(s: Seq<char>, i: int) -> int
    decreases i + 1,
{
    if i < 0 || i >= s.len() {
        0
    } else if s[i] == '\n' {
        0
    } else {
        column_of(s, i - 1) + 1
    }
}

pub open spec fn position_of(s: Seq<char>, i: int) -> Position {
    Position { line: line_of(s, i), column: column_of(s, i) }
}

/// The first character at or after `i` that is not a space, if there is one.
pub open spec fn next_non_space(s: Seq<char>, i: int) -> Option<char>
    decreases s.len() - i,
{
    if i < 0 || i >= s.len() {
        None
    } else if s[i] == ' ' {
        next_non_space(s, i + 1)
    } else {
        Some(s[i])
    }
}

/// What an escape character stands for: `Some(Some(c))` for a character,
/// `Some(None)` for the swallowed space, `None` where the escape is unknown.
pub open spec fn escape_of(c: char) -> Option<Option<char>> {
    if c == 'n' {
        Some(Some('\n'))
    } else if c == '\\' {
        Some(Some('\\'))
    } else if c == 't' {
        Some(Some('\t'))
    } else if c == ' ' {
        Some(None)
    } else {
        None
    }
}

pub open spec fn lexeme_at(kind: TokenType, text: Seq<char>, at: Position) -> Lexeme {
    Lexeme { kind, text, column: at.column, line: at.line }
}

pub open spec fn fault_at(kind: LexErrorKind, at: Position) -> LexFault {
    LexFault { kind, line: at.line, column: at.column }
}

/// The end marker.  It has no character of its own and repeats the place
/// last marked: the start of the latest token, blank or comment.
pub open spec fn end_marker(mark: Position) -> Lexeme {
    lexeme_at(TokenType::EndOfFile, Seq::empty(), mark)
}

/// `rest` with the lexemes of `front` put before it; a fault stays a fault.
pub open spec fn attach(front: Seq<Lexeme>, rest: Result<Seq<Lexeme>, LexFault>) -> Result<
    Seq<Lexeme>,
    LexFault,
> {
    match rest {
        Ok(tail) => Ok(front + tail),
        Err(fault) => Err(fault),
    }
}

/// The number token accumulated from `start` up to, not including, `end`.
pub open spec fn number_lexeme(s: Seq<char>, start: int, end: int, float: bool) -> Lexeme {
    lexeme_at(
        if float {
            TokenType::FloatingPoint
        } else {
            TokenType::Integer
        },
        s.subrange(start, end),
        position_of(s, start),
    )
}

pub open spec fn identifier_lexeme(s: Seq<char>, start: int, end: int) -> Lexeme {
    lexeme_at(TokenType::Identifier, s.subrange(start, end), position_of(s, start))
}

/// The token that a mode still holds when the text ends or the mode is left.
pub open spec fn pending(s: Seq<char>, i: int, mode: Mode) -> Seq<Lexeme> {
    match mode {
        Mode::Number { start, float } => seq![number_lexeme(s, start, i, float)],
        Mode::Identifier { start } => seq![identifier_lexeme(s, start, i)],
        _ => Seq::empty(),
    }
}

/// Everything the tokenizer still produces when it stands before `s[i]` in
/// `mode`, with `mark` the place last marked.
pub open spec fn resume(s: Seq<char>, i: int, mode: Mode, mark: Position) -> Result<
    Seq<Lexeme>,
    LexFault,
>
    decreases s.len() - i, (if mode is Idle { 0int } else { 1int }),
{
    if i < 0 {
        Ok(Seq::empty())
    } else if i >= s.len() {
        if mode is Text {
            Err(fault_at(LexErrorKind::UnterminatedString, position_of(s, s.len() - 1)))
        } else {
            Ok(pending(s, i, mode).push(end_marker(mark)))
        }
    } else {
        let c = s[i];
        let here = position_of(s, i);
        match mode {
            Mode::Idle => {
                if c == '"' {
                    resume(s, i + 1, Mode::Text { start: i, text: Seq::empty() }, here)
                } else if is_digit(c) {
                    resume(s, i + 1, Mode::Number { start: i, float: false }, here)
                } else if is_identifier_char(c) {
                    resume(s, i + 1, Mode::Identifier { start: i }, here)
                } else if is_blank(c) {
                    resume(s, i + 1, Mode::Idle, here)
                } else if c == '/' {
                    if i + 1 < s.len() && s[i + 1] == '/' {
                        resume(s, i + 2, Mode::Comment, here)
                    } else {
                        Err(fault_at(LexErrorKind::MalformedComment, here))
                    }
                } else {
                    match symbol_kind(c) {
                        Some(kind) => attach(
                            seq![lexeme_at(kind, Seq::empty(), here)],
                            resume(s, i + 1, Mode::Idle, here),
                        ),
                        None => Err(fault_at(LexErrorKind::UnknownCharacter, here)),
                    }
                }
            },
            Mode::Number { start, float } => {
                if is_digit(c) {
                    resume(s, i + 1, mode, mark)
                } else if c == '.' && !float {
                    match next_non_space(s, i + 1) {
                        None => Err(fault_at(LexErrorKind::MissingLookahead, here)),
                        Some(d) => if is_digit(d) {
                            resume(s, i + 1, Mode::Number { start, float: true }, mark)
                        } else {
                            attach(pending(s, i, mode), resume(s, i, Mode::Idle, mark))
                        },
                    }
                } else {
                    attach(pending(s, i, mode), resume(s, i, Mode::Idle, mark))
                }
            },
            Mode::Identifier { start } => {
                if is_identifier_char(c) {
                    resume(s, i + 1, mode, mark)
                } else {
                    attach(pending(s, i, mode), resume(s, i, Mode::Idle, mark))
                }
            },
            Mode::Text { start, text } => {
                if c == '"' {
                    attach(
                        seq![lexeme_at(TokenType::String, text, position_of(s, start))],
                        resume(s, i + 1, Mode::Idle, mark),
                    )
                } else if c == '\n' {
                    Err(fault_at(LexErrorKind::UnterminatedString, here))
                } else if c == '\\' {
                    if i + 1 >= s.len() {
                        Err(fault_at(LexErrorKind::UnterminatedString, here))
                    } else {
                        match escape_of(s[i + 1]) {
                            None => Err(
                                fault_at(LexErrorKind::UnknownEscape, position_of(s, i + 1)),
                            ),
                            Some(None) => resume(s, i + 2, mode, mark),
                            Some(Some(e)) => resume(
                                s,
                                i + 2,
                                Mode::Text { start, text: text.push(e) },
                                mark,
                            ),
                        }
                    }
                } else {
                    resume(s, i + 1, Mode::Text { start, text: text.push(c) }, mark)
                }
            },
            Mode::Comment => {
                if c == '\n' {
                    resume(s, i + 1, Mode::Idle, mark)
                } else {
                    resume(s, i + 1, Mode::Comment, mark)
                }
            },
        }
    }
}

/// The token sequence of a whole source text, end marker included, or the
/// first lexical fault.
pub open spec fn tokenize(s: Seq<char>) -> Result<Seq<Lexeme>, LexFault> {
    resume(s, 0, Mode::Idle, Position { line: 0, column: 0 })
}

/// Attaching in two steps is attaching the concatenation.
pub proof fn lemma_attach_twice(
    a: Seq<Lexeme>,
    b: Seq<Lexeme>,
    rest: Result<Seq<Lexeme>, LexFault>,
)
    ensures
        attach(a, attach(b, rest)) == attach(a + b, rest),
{
    if let Ok(tail) = rest {
        assert(a + (b + tail) =~= (a + b) + tail);
    }
}

/// Both counters stay within the number of characters consumed.
pub proof fn lemma_position_bounds(s: Seq<char>, i: int)
    requires
        -1 <= i < s.len(),
    ensures
        1 <= line_of(s, i) <= i + 2,
        0 <= column_of(s, i) <= i + 1,
    decreases i + 1,
{
    if i >= 0 {
        lemma_position_bounds(s, i - 1);
    }
}

/// The kinds that stand for text of the source: every kind but the end
/// marker and the three that no text produces.
pub open spec fn ordinary(kind: TokenType) -> bool {
    kind != TokenType::EndOfFile && kind != TokenType::Boolean && kind
        != TokenType::ReturnTypeArrow && kind != TokenType::NullForParser
}

/// The sequence ends in the end marker, and holds it nowhere else.
pub open spec fn well_terminated(tokens: Seq<Lexeme>) -> bool {
    &&& tokens.len() >= 1
    &&& tokens.last().kind == TokenType::EndOfFile
    &&& forall|k: int| 0 <= k < tokens.len() - 1 ==> ordinary(#[trigger] tokens[k].kind)
}

proof fn lemma_attach_well_terminated(front: Seq<Lexeme>, rest: Result<Seq<Lexeme>, LexFault>)
    requires
        forall|k: int| 0 <= k < front.len() ==> ordinary(#[trigger] front[k].kind),
        rest matches Ok(tail) ==> well_terminated(tail),
    ensures
        attach(front, rest) matches Ok(tokens) ==> well_terminated(tokens),
{
    if let Ok(tail) = rest {
        let tokens = front + tail;
        assert forall|k: int| 0 <= k < tokens.len() - 1 implies ordinary(
            #[trigger] tokens[k].kind,
        ) by {
            if k >= front.len() {
                assert(tokens[k] == tail[k - front.len()]);
            }
        }
    }
}

proof fn lemma_resume_well_terminated(s: Seq<char>, i: int, mode: Mode, mark: Position)
    requires
        0 <= i,
    ensures
        resume(s, i, mode, mark) matches Ok(tokens) ==> well_terminated(tokens),
    decreases s.len() - i, (if mode is Idle { 0int } else { 1int }),
{
    if i >= s.len() {
        if !(mode is Text) {
            let tokens = pending(s, i, mode).push(end_marker(mark));
            assert forall|k: int| 0 <= k < tokens.len() - 1 implies ordinary(
                #[trigger] tokens[k].kind,
            ) by {
                assert(tokens[k] == pending(s, i, mode)[k]);
            }
        }
    } else {
        let c = s[i];
        let here = position_of(s, i);
        match mode {
            Mode::Idle => {
                lemma_resume_well_terminated(
                    s,
                    i + 1,
                    Mode::Text { start: i, text: Seq::empty() },
                    here,
                );
                lemma_resume_well_terminated(
                    s,
                    i + 1,
                    Mode::Number { start: i, float: false },
                    here,
                );
                lemma_resume_well_terminated(s, i + 1, Mode::Identifier { start: i }, here);
                lemma_resume_well_terminated(s, i + 1, Mode::Idle, here);
                if i + 1 < s.len() {
                    lemma_resume_well_terminated(s, i + 2, Mode::Comment, here);
                }
                if let Some(kind) = symbol_kind(c) {
                    lemma_attach_well_terminated(
                        seq![lexeme_at(kind, Seq::empty(), here)],
                        resume(s, i + 1, Mode::Idle, here),
                    );
                }
            },
            Mode::Number { start, float } => {
                lemma_resume_well_terminated(s, i + 1, mode, mark);
                lemma_resume_well_terminated(s, i + 1, Mode::Number { start, float: true }, mark);
                lemma_resume_well_terminated(s, i, Mode::Idle, mark);
                lemma_attach_well_terminated(pending(s, i, mode), resume(s, i, Mode::Idle, mark));
            },
            Mode::Identifier { start } => {
                lemma_resume_well_terminated(s, i + 1, mode, mark);
                lemma_resume_well_terminated(s, i, Mode::Idle, mark);
                lemma_attach_well_terminated(pending(s, i, mode), resume(s, i, Mode::Idle, mark));
            },
            Mode::Text { start, text } => {
                lemma_resume_well_terminated(s, i + 1, Mode::Idle, mark);
                lemma_attach_well_terminated(
                    seq![lexeme_at(TokenType::String, text, position_of(s, start))],
                    resume(s, i + 1, Mode::Idle, mark),
                );
                if i + 1 < s.len() {
                    lemma_resume_well_terminated(s, i + 2, mode, mark);
                    if let Some(Some(e)) = escape_of(s[i + 1]) {
                        lemma_resume_well_terminated(
                            s,
                            i + 2,
                            Mode::Text { start, text: text.push(e) },
                            mark,
                        );
                    }
                }
                lemma_resume_well_terminated(
                    s,
                    i + 1,
                    Mode::Text { start, text: text.push(c) },
                    mark,
                );
            },
            Mode::Comment => {
                lemma_resume_well_terminated(s, i + 1, Mode::Idle, mark);
                lemma_resume_well_terminated(s, i + 1, Mode::Comment, mark);
            },
        }
    }
}

/// Every token sequence ends in the end marker and holds it nowhere else;
/// no token is a boolean, a return arrow or the parser's null token.
pub proof fn law_tokens_end_in_marker(s: Seq<char>)
    ensures
        tokenize(s) matches Ok(tokens) ==> well_terminated(tokens),
{
    lemma_resume_well_terminated(s, 0, Mode::Idle, Position { line: 0, column: 0 });
}

/// The text holds nothing but `+` and `-`.
pub open spec fn only_signs(s: Seq<char>) -> bool {
    forall|i: int| 0 <= i < s.len() ==> (#[trigger] s[i]) == '+' || s[i] == '-'
}

/// The tokens are those of a text of signs: one increment or decrement for
/// each character, in order, then the end marker.
pub open spec fn tokens_of_signs(s: Seq<char>, tokens: Seq<Lexeme>) -> bool {
    &&& tokens.len() == s.len() + 1
    &&& forall|k: int|
        0 <= k < s.len() ==> (#[trigger] tokens[k]).kind == if s[k] == '+' {
            TokenType::AddOperation
        } else {
            TokenType::SubOperation
        }
    &&& tokens[s.len() as int].kind == TokenType::EndOfFile
}

proof fn lemma_signs_resume(s: Seq<char>, i: int, mark: Position)
    requires
        only_signs(s),
        0 <= i <= s.len(),
    ensures
        resume(s, i, Mode::Idle, mark) matches Ok(tokens) && tokens.len() == s.len() - i + 1
            && tokens[s.len() - i].kind == TokenType::EndOfFile && forall|k: int|
            0 <= k < s.len() - i ==> (#[trigger] tokens[k]).kind == if s[i + k] == '+' {
                TokenType::AddOperation
            } else {
                TokenType::SubOperation
            },
    decreases s.len() - i,
{
    if i < s.len() {
        let here = position_of(s, i);
        assert(s[i] == '+' || s[i] == '-');
        lemma_signs_resume(s, i + 1, here);
        let kind = symbol_kind(s[i])->Some_0;
        let tail = resume(s, i + 1, Mode::Idle, here)->Ok_0;
        let tokens = seq![lexeme_at(kind, Seq::empty(), here)] + tail;
        assert(resume(s, i, Mode::Idle, mark) == Ok::<Seq<Lexeme>, LexFault>(tokens));
        assert forall|k: int| 0 <= k < s.len() - i implies (#[trigger] tokens[k]).kind == if s[i
            + k] == '+' {
            TokenType::AddOperation
        } else {
            TokenType::SubOperation
        } by {
            if k > 0 {
                assert(tokens[k] == tail[k - 1]);
            }
        }
        assert(tokens[s.len() - i] == tail[s.len() - i - 1]);
    }
}

/// A text of nothing but `+` and `-` always tokenizes: to one increment or
/// decrement for each character, in order, and the end marker.
pub proof fn law_signs_tokenize(s: Seq<char>)
    requires
        only_signs(s),
    ensures
        tokenize(s) matches Ok(tokens) && tokens_of_signs(s, tokens),
{
    lemma_signs_resume(s, 0, Position { line: 0, column: 0 });
}

} // verus!
