//! Tokens and the tokenizer.

use crate::chars::chars_of;
use crate::chars::digit;
use crate::grammar::attach;
use crate::grammar::column_of;
use crate::grammar::end_marker;
use crate::grammar::is_blank;
use crate::grammar::is_identifier_char;
use crate::grammar::lemma_attach_twice;
use crate::grammar::lemma_position_bounds;
use crate::grammar::lexeme_at;
use crate::grammar::line_of;
use crate::grammar::next_non_space;
use crate::grammar::pending;
use crate::grammar::position_of;
use crate::grammar::resume;
use crate::grammar::symbol_kind;
use crate::grammar::tokenize;
use crate::grammar::LexFault;
use crate::grammar::Lexeme;
use crate::grammar::Mode;
use crate::grammar::Position;
use vstd::prelude::*;

verus! {

/// The closed set of token kinds.
#[derive(PartialEq, Eq, Structural, Debug, Clone, Copy)]
pub enum TokenType {
    String,
    Integer,
    Boolean,
    FloatingPoint,
    Identifier,
    AddOperation,
    SubOperation,
    MovRightOperation,
    MovLeftOperation,
    PrintOut,
    Colon,
    SemiColon,
    EndOfFile,
    FunctionCall,
    BracketOpen,
    BracketClose,
    CurlyBracketOpen,
    CurlyBracketClose,
    ParenthesisOpen,
    ParenthesisClose,
    SeparatorComma,
    ReturnTypeArrow,
    NullForParser,
}

/// One lexical unit: its kind, its literal text and the position of its
/// first character (`x` is the column, `y` the line).
#[derive(Debug)]
pub struct Token {
    pub token_type: TokenType,
    pub value: String,
    pub x: u32,
    pub y: u32,
}

impl View for Token {
    type V = Lexeme;

    open spec fn view(&self) -> Lexeme {
        Lexeme {
            kind: self.token_type,
            text: self.value@,
            column: self.x as int,
            line: self.y as int,
        }
    }
}

impl Clone for Token {
    fn clone(&self) -> (r: Self)
        ensures
            r == *self,
    {
        Token { token_type: self.token_type, value: self.value.clone(), x: self.x, y: self.y }
    }
}

impl PartialEq for Token {
    fn eq(&self, other: &Self) -> (r: bool) {
        self.token_type == other.token_type && self.value == other.value && self.x == other.x
            && self.y == other.y
    }
}

impl Eq for Token {

}

impl vstd::std_specs::cmp::PartialEqSpecImpl for Token {
    open spec fn obeys_eq_spec() -> bool {
        true
    }

    open spec fn eq_spec(&self, other: &Self) -> bool {
        self@ == other@
    }
}

/// The lexemes that a sequence of tokens stands for.
pub open spec fn lexemes(tokens: Seq<Token>) -> Seq<Lexeme> {
    tokens.map_values(|t: Token| t@)
}

/// Taken on trust from the documentation of the standard library:
/// `String::push` appends the given character to the end of the string and
/// changes nothing else of it.
pub assume_specification[ std::string::String::push ](s: &mut std::string::String, c: char)
    ensures
        final(s)@ == old(s)@.push(c),
;

impl Token {
    /// A token of the given kind and text at position (0, 0).
    pub fn new(token_type: TokenType, value: String) -> (r: Self)
        ensures
            r.token_type == token_type,
            r.value == value,
            r.x == 0,
            r.y == 0,
    {
        Self { token_type, value, x: 0, y: 0 }
    }

    pub fn is_string(&self) -> (r: bool)
        ensures
            r == (self.token_type == TokenType::String),
    {
        self.token_type == TokenType::String
    }

    pub fn is_integer(&self) -> (r: bool)
        ensures
            r == (self.token_type == TokenType::Integer),
    {
        self.token_type == TokenType::Integer
    }

    pub fn is_float(&self) -> (r: bool)
        ensures
            r == (self.token_type == TokenType::FloatingPoint),
    {
        self.token_type == TokenType::FloatingPoint
    }

    pub fn is_bool(&self) -> (r: bool)
        ensures
            r == (self.token_type == TokenType::Boolean),
    {
        self.token_type == TokenType::Boolean
    }

    /// Whether the token is one of the four literal kinds.
    pub fn is_data_type(&self) -> (r: bool)
        ensures
            r == (self.token_type == TokenType::FloatingPoint || self.token_type
                == TokenType::Boolean || self.token_type == TokenType::String
                || self.token_type == TokenType::Integer),
    {
        self.is_float() || self.is_bool() || self.is_string() || self.is_integer()
    }

    /// The text as it would be written in source: a string literal gets its
    /// quotes back, every other token is its text.
    pub fn true_value(&self) -> (r: String)
        ensures
            r@ == if self.token_type == TokenType::String {
                seq!['"'] + self.value@ + seq!['"']
            } else {
                self.value@
            },
    {
        if self.is_string() {
            let mut quoted = String::new();
            quoted.push('"');
            quoted.append(self.value.as_str());
            quoted.push('"');
            quoted
        } else {
            self.value.clone()
        }
    }
}

/// The ways in which a source text can fail to tokenize.
#[derive(PartialEq, Eq, Structural, Debug, Clone, Copy)]
pub enum LexErrorKind {
    /// A string literal met a raw newline or the end of the text.
    UnterminatedString,
    /// A backslash inside a string literal is followed by something other
    /// than `n`, `t`, a backslash or a space.
    UnknownEscape,
    /// A slash is not followed by a second slash.
    MalformedComment,
    /// A character that starts no token.
    UnknownCharacter,
    /// A `.` after an integer is followed by nothing but spaces.
    MissingLookahead,
}

/// A lexical error and the position the tokenizer had reached.
#[derive(PartialEq, Eq, Structural, Debug, Clone, Copy)]
pub struct LexError {
    pub kind: LexErrorKind,
    pub line: u32,
    pub column: u32,
}

impl View for LexError {
    type V = LexFault;

    open spec fn view(&self) -> LexFault {
        LexFault { kind: self.kind, line: self.line as int, column: self.column as int }
    }
}

/// The mode of the tokenizer, as the running code keeps it.
#[derive(Clone, Copy, Debug)]
enum Scanning {
    Idle,
    Number { float: bool },
    Identifier,
    Text,
    Comment,
}

/// A one-shot tokenizer.
pub struct Lexer {
    text_to_lex: Vec<char>,
    /// How many characters have been consumed.
    index: usize,
    run: bool,
    current_char: char,
    x: u32,
    y: u32,
    tok_start_x: u32,
    tok_start_y: u32,
    current_tokens: Vec<Token>,
    scanning: Scanning,
    /// The text of the token being accumulated.
    accumulated: String,
    /// Index of the first character of the token being accumulated.
    start: Ghost<int>,
}

fn identifier_char(c: char) -> (r: bool)
    ensures
        r == is_identifier_char(c),
{
    ('a' <= c && c <= 'z') || ('A' <= c && c <= 'Z') || c == '_' || digit(c)
}

fn blank(c: char) -> (r: bool)
    ensures
        r == is_blank(c),
{
    c == ' ' || c == '\n' || c == '\t'
}

fn symbol_of(c: char) -> (r: Option<TokenType>)
    ensures
        r == symbol_kind(c),
{
    if c == '+' {
        Some(TokenType::AddOperation)
    } else if c == '-' {
        Some(TokenType::SubOperation)
    } else if c == '>' {
        Some(TokenType::MovRightOperation)
    } else if c == '<' {
        Some(TokenType::MovLeftOperation)
    } else if c == '.' {
        Some(TokenType::PrintOut)
    } else if c == '(' {
        Some(TokenType::ParenthesisOpen)
    } else if c == ')' {
        Some(TokenType::ParenthesisClose)
    } else if c == ',' {
        Some(TokenType::SeparatorComma)
    } else if c == '{' {
        Some(TokenType::CurlyBracketOpen)
    } else if c == '}' {
        Some(TokenType::CurlyBracketClose)
    } else if c == '[' {
        Some(TokenType::BracketOpen)
    } else if c == ']' {
        Some(TokenType::BracketClose)
    } else if c == ':' {
        Some(TokenType::Colon)
    } else if c == ';' {
        Some(TokenType::SemiColon)
    } else if c == '&' {
        Some(TokenType::FunctionCall)
    } else {
        None
    }
}

impl Lexer {
    /// The place last marked as the start of a token.
    closed spec fn mark(&self) -> Position {
        Position { line: self.tok_start_y as int, column: self.tok_start_x as int }
    }

    /// The mode, with the ghost parts that the running code does not keep.
    closed spec fn mode(&self) -> Mode {
        match self.scanning {
            Scanning::Idle => Mode::Idle,
            Scanning::Number { float } => Mode::Number { start: self.start@, float },
            Scanning::Identifier => Mode::Identifier { start: self.start@ },
            Scanning::Text => Mode::Text { start: self.start@, text: self.accumulated@ },
            Scanning::Comment => Mode::Comment,
        }
    }

    /// The counters agree with the characters consumed so far.
    closed spec fn tracks_position(&self) -> bool {
        let s = self.text_to_lex@;
        let i = self.index as int;
        &&& s.len() <= i32::MAX
        &&& i <= s.len()
        &&& self.x as int == column_of(s, i - 1)
        &&& self.y as int == line_of(s, i - 1)
        &&& i > 0 ==> self.current_char == s[i - 1]
    }

    /// The accumulator and the mark agree with the mode, taken to stand
    /// before the character at index `i`.
    closed spec fn settled_at(&self, i: int) -> bool {
        let s = self.text_to_lex@;
        match self.scanning {
            Scanning::Idle | Scanning::Comment => self.accumulated@.len() == 0,
            Scanning::Number { .. } | Scanning::Identifier => {
                &&& 0 <= self.start@ < i
                &&& self.accumulated@ == s.subrange(self.start@, i)
                &&& self.mark() == position_of(s, self.start@)
            },
            Scanning::Text => {
                &&& 0 <= self.start@ < i
                &&& self.mark() == position_of(s, self.start@)
            },
        }
    }

    /// What the whole run yields if it goes on from before the character at
    /// index `i`: the tokens produced so far, then what the grammar gives
    /// from there.
    closed spec fn remaining_at(&self, i: int) -> Result<Seq<Lexeme>, LexFault> {
        attach(lexemes(self.current_tokens@), resume(self.text_to_lex@, i, self.mode(), self.mark()))
    }

    /// A tokenizer that has not been run.
    pub closed spec fn fresh(&self) -> bool {
        &&& self.run
        &&& self.text_to_lex@.len() == 0
        &&& self.index == 0
        &&& self.x == 0
        &&& self.y == 1
        &&& self.tok_start_x == 0
        &&& self.tok_start_y == 0
        &&& self.current_tokens@.len() == 0
        &&& self.scanning is Idle
        &&& self.accumulated@.len() == 0
    }

    pub fn new() -> (r: Self)
        ensures
            r.fresh(),
    {
        Self {
            text_to_lex: Vec::new(),
            index: 0,
            run: true,
            current_char: ' ',
            x: 0,
            y: 1,
            tok_start_x: 0,
            tok_start_y: 0,
            current_tokens: Vec::new(),
            scanning: Scanning::Idle,
            accumulated: String::new(),
            start: Ghost(0),
        }
    }

    /// The error of the given kind at the position reached.
    fn error(&self, kind: LexErrorKind) -> (e: LexError)
        ensures
            e.kind == kind,
            e.line == self.y,
            e.column == self.x,
    {
        LexError { kind, line: self.y, column: self.x }
    }

    /// Marks the position reached as the start of a token.
    fn pos_starter(&mut self)
        ensures
            final(self).tok_start_x == old(self).x,
            final(self).tok_start_y == old(self).y,
            final(self).text_to_lex == old(self).text_to_lex,
            final(self).index == old(self).index,
            final(self).run == old(self).run,
            final(self).current_char == old(self).current_char,
            final(self).x == old(self).x,
            final(self).y == old(self).y,
            final(self).current_tokens == old(self).current_tokens,
            final(self).scanning == old(self).scanning,
            final(self).accumulated == old(self).accumulated,
            final(self).start == old(self).start,
    {
        self.tok_start_x = self.x;
        self.tok_start_y = self.y;
    }

    /// Consumes one character, if one is left, and moves the counters.
    fn next_char(&mut self) -> (more: bool)
        requires
            old(self).tracks_position(),
        ensures
            final(self).tracks_position(),
            more == (old(self).index < old(self).text_to_lex@.len()),
            final(self).index == old(self).index + if more { 1int } else { 0int },
            final(self).text_to_lex == old(self).text_to_lex,
            final(self).run == old(self).run,
            final(self).tok_start_x == old(self).tok_start_x,
            final(self).tok_start_y == old(self).tok_start_y,
            final(self).current_tokens == old(self).current_tokens,
            final(self).scanning == old(self).scanning,
            final(self).accumulated == old(self).accumulated,
            final(self).start == old(self).start,
    {
        if self.index >= self.text_to_lex.len() {
            false
        } else {
            proof {
                lemma_position_bounds(self.text_to_lex@, self.index as int - 1);
            }
            self.current_char = self.text_to_lex[self.index];
            self.index += 1;
            if self.current_char == '\n' {
                self.y += 1;
                self.x = 0;
            } else {
                self.x += 1;
            }
            true
        }
    }

    /// The character `ahead` places after the current one.
    fn get_char(&self, ahead: usize) -> (c: Option<char>)
        requires
            self.tracks_position(),
        ensures
            c == if 1 <= self.index + ahead <= self.text_to_lex@.len() {
                Some(self.text_to_lex@[self.index + ahead - 1])
            } else {
                None
            },
    {
        if ahead > self.text_to_lex.len() - self.index || (self.index == 0 && ahead == 0) {
            None
        } else {
            Some(self.text_to_lex[self.index + ahead - 1])
        }
    }

    fn get_next_char(&self) -> (c: Option<char>)
        requires
            self.tracks_position(),
        ensures
            c == if self.index < self.text_to_lex@.len() {
                Some(self.text_to_lex@[self.index as int])
            } else {
                None
            },
    {
        self.get_char(1)
    }

    /// The first character after the current one that is not a space.
    fn get_next_char_ignore_space(&self) -> (c: Option<char>)
        requires
            self.tracks_position(),
        ensures
            c == next_non_space(self.text_to_lex@, self.index as int),
    {
        let mut ind: usize = self.index;
        while ind < self.text_to_lex.len() && self.text_to_lex[ind] == ' '
            invariant
                self.index <= ind <= self.text_to_lex@.len(),
                next_non_space(self.text_to_lex@, self.index as int) == next_non_space(
                    self.text_to_lex@,
                    ind as int,
                ),
            decreases self.text_to_lex@.len() - ind,
        {
            ind += 1;
        }
        if ind < self.text_to_lex.len() {
            Some(self.text_to_lex[ind])
        } else {
            None
        }
    }

    /// Appends a token of the given kind and text at the place last marked.
    fn add_base(&mut self, tok_type: TokenType, value: String)
        ensures
            lexemes(final(self).current_tokens@) == lexemes(old(self).current_tokens@).push(
                lexeme_at(tok_type, value@, old(self).mark()),
            ),
            final(self).text_to_lex == old(self).text_to_lex,
            final(self).index == old(self).index,
            final(self).run == old(self).run,
            final(self).current_char == old(self).current_char,
            final(self).x == old(self).x,
            final(self).y == old(self).y,
            final(self).tok_start_x == old(self).tok_start_x,
            final(self).tok_start_y == old(self).tok_start_y,
            final(self).scanning == old(self).scanning,
            final(self).accumulated == old(self).accumulated,
            final(self).start == old(self).start,
    {
        let mut tok = Token::new(tok_type, value);
        tok.x = self.tok_start_x;
        tok.y = self.tok_start_y;
        self.current_tokens.push(tok);
        assert(lexemes(self.current_tokens@) =~= lexemes(old(self).current_tokens@).push(tok@));
    }

    /// Appends a token without text.
    fn add_special(&mut self, tok_type: TokenType)
        ensures
            lexemes(final(self).current_tokens@) == lexemes(old(self).current_tokens@).push(
                lexeme_at(tok_type, Seq::empty(), old(self).mark()),
            ),
            final(self).text_to_lex == old(self).text_to_lex,
            final(self).index == old(self).index,
            final(self).run == old(self).run,
            final(self).current_char == old(self).current_char,
            final(self).x == old(self).x,
            final(self).y == old(self).y,
            final(self).tok_start_x == old(self).tok_start_x,
            final(self).tok_start_y == old(self).tok_start_y,
            final(self).scanning == old(self).scanning,
            final(self).accumulated == old(self).accumulated,
            final(self).start == old(self).start,
    {
        self.add_base(tok_type, String::new());
    }

    /// Appends a string token.
    fn add_string(&mut self, value: String)
        ensures
            lexemes(final(self).current_tokens@) == lexemes(old(self).current_tokens@).push(
                lexeme_at(TokenType::String, value@, old(self).mark()),
            ),
            final(self).text_to_lex == old(self).text_to_lex,
            final(self).index == old(self).index,
            final(self).run == old(self).run,
            final(self).current_char == old(self).current_char,
            final(self).x == old(self).x,
            final(self).y == old(self).y,
            final(self).tok_start_x == old(self).tok_start_x,
            final(self).tok_start_y == old(self).tok_start_y,
            final(self).scanning == old(self).scanning,
            final(self).accumulated == old(self).accumulated,
            final(self).start == old(self).start,
    {
        self.add_base(TokenType::String, value);
    }

    /// Appends an integer token.
    fn add_integer(&mut self, value: String)
        ensures
            lexemes(final(self).current_tokens@) == lexemes(old(self).current_tokens@).push(
                lexeme_at(TokenType::Integer, value@, old(self).mark()),
            ),
            final(self).text_to_lex == old(self).text_to_lex,
            final(self).index == old(self).index,
            final(self).run == old(self).run,
            final(self).current_char == old(self).current_char,
            final(self).x == old(self).x,
            final(self).y == old(self).y,
            final(self).tok_start_x == old(self).tok_start_x,
            final(self).tok_start_y == old(self).tok_start_y,
            final(self).scanning == old(self).scanning,
            final(self).accumulated == old(self).accumulated,
            final(self).start == old(self).start,
    {
        self.add_base(TokenType::Integer, value);
    }

    /// Appends a floating-point token.
    fn add_float(&mut self, value: String)
        ensures
            lexemes(final(self).current_tokens@) == lexemes(old(self).current_tokens@).push(
                lexeme_at(TokenType::FloatingPoint, value@, old(self).mark()),
            ),
            final(self).text_to_lex == old(self).text_to_lex,
            final(self).index == old(self).index,
            final(self).run == old(self).run,
            final(self).current_char == old(self).current_char,
            final(self).x == old(self).x,
            final(self).y == old(self).y,
            final(self).tok_start_x == old(self).tok_start_x,
            final(self).tok_start_y == old(self).tok_start_y,
            final(self).scanning == old(self).scanning,
            final(self).accumulated == old(self).accumulated,
            final(self).start == old(self).start,
    {
        self.add_base(TokenType::FloatingPoint, value);
    }

    /// Appends the token for a run of identifier characters.
    fn unknown_length(&mut self, value: String)
        ensures
            lexemes(final(self).current_tokens@) == lexemes(old(self).current_tokens@).push(
                lexeme_at(TokenType::Identifier, value@, old(self).mark()),
            ),
            final(self).text_to_lex == old(self).text_to_lex,
            final(self).index == old(self).index,
            final(self).run == old(self).run,
            final(self).current_char == old(self).current_char,
            final(self).x == old(self).x,
            final(self).y == old(self).y,
            final(self).tok_start_x == old(self).tok_start_x,
            final(self).tok_start_y == old(self).tok_start_y,
            final(self).scanning == old(self).scanning,
            final(self).accumulated == old(self).accumulated,
            final(self).start == old(self).start,
    {
        self.add_base(TokenType::Identifier, value);
    }

    /// Appends the token that the number or identifier mode has accumulated
    /// and goes idle.
    fn flush(&mut self)
        requires
            old(self).scanning is Number || old(self).scanning is Identifier,
        ensures
            final(self).scanning is Idle,
            final(self).accumulated@.len() == 0,
            lexemes(final(self).current_tokens@) == lexemes(old(self).current_tokens@).push(
                lexeme_at(
                    match old(self).scanning {
                        Scanning::Number { float: true } => TokenType::FloatingPoint,
                        Scanning::Number { float: false } => TokenType::Integer,
                        _ => TokenType::Identifier,
                    },
                    old(self).accumulated@,
                    old(self).mark(),
                ),
            ),
            final(self).text_to_lex == old(self).text_to_lex,
            final(self).index == old(self).index,
            final(self).run == old(self).run,
            final(self).current_char == old(self).current_char,
            final(self).x == old(self).x,
            final(self).y == old(self).y,
            final(self).tok_start_x == old(self).tok_start_x,
            final(self).tok_start_y == old(self).tok_start_y,
    {
        let value = self.accumulated.clone();
        match self.scanning {
            Scanning::Number { float } => {
                if float {
                    self.add_float(value);
                } else {
                    self.add_integer(value);
                }
            },
            _ => {
                self.unknown_length(value);
            },
        }
        self.accumulated = String::new();
        self.scanning = Scanning::Idle;
    }

    /// The current character is consumed but not yet handled, and the mode
    /// is settled before it.
    closed spec fn holds_char(&self) -> bool {
        &&& self.tracks_position()
        &&& self.index >= 1
        &&& self.settled_at(self.index - 1)
    }

    /// What handling the current character of `self` has to achieve: on
    /// success the tokenizer `after` stands settled further on and yields the
    /// same run; on failure the run is that fault.
    closed spec fn handled(&self, after: &Lexer, r: Result<(), LexError>) -> bool {
        &&& after.text_to_lex == self.text_to_lex
        &&& after.run == self.run
        &&& match r {
            Ok(()) => {
                &&& after.tracks_position()
                &&& after.index >= self.index
                &&& after.settled_at(after.index as int)
                &&& after.remaining_at(after.index as int) == self.remaining_at(self.index - 1)
            },
            Err(e) => self.remaining_at(self.index - 1) == Err::<Seq<Lexeme>, LexFault>(e@),
        }
    }

    /// Handles the current character between tokens.
    fn in_idle(&mut self) -> (r: Result<(), LexError>)
        requires
            old(self).holds_char(),
            old(self).scanning is Idle,
        ensures
            old(self).handled(final(self), r),
    {
        let c = self.current_char;
        let ghost s = self.text_to_lex@;
        let ghost i = self.index as int - 1;
        let ghost before = lexemes(self.current_tokens@);
        self.pos_starter();
        assert(self.mark() == position_of(s, i));
        if c == '"' {
            self.scanning = Scanning::Text;
            self.start = Ghost(i);
            assert(self.accumulated@ =~= Seq::<char>::empty());
            Ok(())
        } else if digit(c) {
            self.accumulated.push(c);
            self.scanning = Scanning::Number { float: false };
            self.start = Ghost(i);
            assert(self.accumulated@ =~= s.subrange(i, i + 1));
            Ok(())
        } else if identifier_char(c) {
            self.accumulated.push(c);
            self.scanning = Scanning::Identifier;
            self.start = Ghost(i);
            assert(self.accumulated@ =~= s.subrange(i, i + 1));
            Ok(())
        } else if blank(c) {
            Ok(())
        } else if c == '/' {
            match self.get_next_char() {
                Some('/') => {
                    self.next_char();
                    self.scanning = Scanning::Comment;
                    Ok(())
                },
                _ => Err(self.error(LexErrorKind::MalformedComment)),
            }
        } else {
            match symbol_of(c) {
                Some(kind) => {
                    self.add_special(kind);
                    proof {
                        let token = seq![lexeme_at(kind, Seq::empty(), position_of(s, i))];
                        lemma_attach_twice(
                            before,
                            token,
                            resume(s, i + 1, Mode::Idle, position_of(s, i)),
                        );
                        assert(before.push(token[0]) =~= before + token);
                    }
                    Ok(())
                },
                None => Err(self.error(LexErrorKind::UnknownCharacter)),
            }
        }
    }

    /// Leaves the number or identifier mode before the current character and
    /// handles that character between tokens.
    fn leave(&mut self) -> (r: Result<(), LexError>)
        requires
            old(self).holds_char(),
            old(self).scanning is Number || old(self).scanning is Identifier,
            resume(
                old(self).text_to_lex@,
                old(self).index - 1,
                old(self).mode(),
                old(self).mark(),
            ) == attach(
                pending(old(self).text_to_lex@, old(self).index - 1, old(self).mode()),
                resume(old(self).text_to_lex@, old(self).index - 1, Mode::Idle, old(self).mark()),
            ),
        ensures
            old(self).handled(final(self), r),
    {
        let ghost s = self.text_to_lex@;
        let ghost i = self.index as int - 1;
        let ghost before = lexemes(self.current_tokens@);
        let ghost held = pending(s, i, self.mode());
        self.flush();
        proof {
            assert(lexemes(self.current_tokens@) =~= before + held);
            lemma_attach_twice(before, held, resume(s, i, Mode::Idle, self.mark()));
        }
        self.in_idle()
    }

    /// Handles the current character inside a number.
    fn in_number(&mut self) -> (r: Result<(), LexError>)
        requires
            old(self).holds_char(),
            old(self).scanning is Number,
        ensures
            old(self).handled(final(self), r),
    {
        let c = self.current_char;
        let ghost s = self.text_to_lex@;
        let ghost i = self.index as int - 1;
        let float = match self.scanning {
            Scanning::Number { float } => float,
            _ => false,
        };
        if digit(c) {
            self.accumulated.push(c);
            assert(self.accumulated@ =~= s.subrange(self.start@, i + 1));
            Ok(())
        } else if c == '.' && !float {
            match self.get_next_char_ignore_space() {
                None => Err(self.error(LexErrorKind::MissingLookahead)),
                Some(d) => {
                    if digit(d) {
                        self.accumulated.push(c);
                        self.scanning = Scanning::Number { float: true };
                        assert(self.accumulated@ =~= s.subrange(self.start@, i + 1));
                        Ok(())
                    } else {
                        self.leave()
                    }
                },
            }
        } else {
            self.leave()
        }
    }

    /// Handles the current character inside an identifier.
    fn in_identifier(&mut self) -> (r: Result<(), LexError>)
        requires
            old(self).holds_char(),
            old(self).scanning is Identifier,
        ensures
            old(self).handled(final(self), r),
    {
        let c = self.current_char;
        let ghost s = self.text_to_lex@;
        let ghost i = self.index as int - 1;
        if identifier_char(c) {
            self.accumulated.push(c);
            assert(self.accumulated@ =~= s.subrange(self.start@, i + 1));
            Ok(())
        } else {
            self.leave()
        }
    }

    /// Handles the current character inside a string literal.
    fn in_string(&mut self) -> (r: Result<(), LexError>)
        requires
            old(self).holds_char(),
            old(self).scanning is Text,
        ensures
            old(self).handled(final(self), r),
    {
        let c = self.current_char;
        let ghost s = self.text_to_lex@;
        let ghost i = self.index as int - 1;
        let ghost before = lexemes(self.current_tokens@);
        if c == '"' {
            let value = self.accumulated.clone();
            self.add_string(value);
            self.accumulated = String::new();
            self.scanning = Scanning::Idle;
            proof {
                let token = seq![
                    lexeme_at(TokenType::String, value@, position_of(s, self.start@)),
                ];
                lemma_attach_twice(before, token, resume(s, i + 1, Mode::Idle, self.mark()));
                assert(before.push(token[0]) =~= before + token);
            }
            Ok(())
        } else if c == '\n' {
            Err(self.error(LexErrorKind::UnterminatedString))
        } else if c == '\\' {
            if !self.next_char() {
                Err(self.error(LexErrorKind::UnterminatedString))
            } else {
                let e = self.current_char;
                if e == 'n' {
                    self.accumulated.push('\n');
                    Ok(())
                } else if e == '\\' {
                    self.accumulated.push('\\');
                    Ok(())
                } else if e == 't' {
                    self.accumulated.push('\t');
                    Ok(())
                } else if e == ' ' {
                    Ok(())
                } else {
                    Err(self.error(LexErrorKind::UnknownEscape))
                }
            }
        } else {
            self.accumulated.push(c);
            Ok(())
        }
    }

    /// Handles the current character inside a comment.
    fn in_comment(&mut self) -> (r: Result<(), LexError>)
        requires
            old(self).holds_char(),
            old(self).scanning is Comment,
        ensures
            old(self).handled(final(self), r),
    {
        if self.current_char == '\n' {
            self.scanning = Scanning::Idle;
        }
        Ok(())
    }

    /// Everything but the text is as `new` leaves it, and the text is short
    /// enough for the counters.
    closed spec fn ready(&self) -> bool {
        &&& self.run
        &&& self.text_to_lex@.len() <= i32::MAX
        &&& self.index == 0
        &&& self.x == 0
        &&& self.y == 1
        &&& self.tok_start_x == 0
        &&& self.tok_start_y == 0
        &&& self.current_tokens@.len() == 0
        &&& self.scanning is Idle
        &&& self.accumulated@.len() == 0
    }

    /// Runs the state machine over the text held.
    fn lex(&mut self) -> (r: Result<Vec<Token>, LexError>)
        requires
            old(self).ready(),
        ensures
            !final(self).run,
            match r {
                Ok(tokens) => tokenize(old(self).text_to_lex@) == Ok::<Seq<Lexeme>, LexFault>(
                    lexemes(tokens@),
                ),
                Err(e) => tokenize(old(self).text_to_lex@) == Err::<Seq<Lexeme>, LexFault>(e@),
            },
    {
        let ghost s = self.text_to_lex@;
        assert(lexemes(self.current_tokens@) =~= Seq::<Lexeme>::empty());
        assert(self.remaining_at(0) == tokenize(s)) by {
            assert(Seq::<Lexeme>::empty() + resume(s, 0, self.mode(), self.mark())->Ok_0
                =~= resume(s, 0, self.mode(), self.mark())->Ok_0);
        }
        while self.run
            invariant
                old(self).text_to_lex@ == s,
                self.text_to_lex@ == s,
                self.tracks_position(),
                self.settled_at(self.index as int),
                self.remaining_at(self.index as int) == tokenize(s),
                !self.run ==> self.index == s.len(),
            decreases s.len() - self.index, (if self.run { 1int } else { 0int }),
        {
            if !self.next_char() {
                self.run = false;
            } else {
                let step = match self.scanning {
                    Scanning::Idle => self.in_idle(),
                    Scanning::Number { .. } => self.in_number(),
                    Scanning::Identifier => self.in_identifier(),
                    Scanning::Text => self.in_string(),
                    Scanning::Comment => self.in_comment(),
                };
                if let Err(e) = step {
                    self.run = false;
                    return Err(e);
                }
            }
        }
        let ghost before = lexemes(self.current_tokens@);
        let ghost held = pending(s, s.len() as int, self.mode());
        let ghost mark = self.mark();
        match self.scanning {
            Scanning::Number { .. } | Scanning::Identifier => {
                self.flush();
            },
            Scanning::Text => {
                return Err(self.error(LexErrorKind::UnterminatedString));
            },
            _ => {},
        }
        self.add_special(TokenType::EndOfFile);
        assert(lexemes(self.current_tokens@) =~= before + held.push(end_marker(mark)));
        let tokens = self.current_tokens.clone();
        assert(lexemes(tokens@) =~= lexemes(self.current_tokens@));
        Ok(tokens)
    }

    /// Tokenizes `text`.
    ///
    /// The result is the token sequence that the grammar assigns to the text,
    /// ending in the end marker, or the first lexical error with the position
    /// at which it was raised.  A tokenizer runs once.
    pub fn lex_text(&mut self, text: String) -> (r: Result<Vec<Token>, LexError>)
        requires
            old(self).fresh(),
            text@.len() <= i32::MAX,
        ensures
            !final(self).fresh(),
            match r {
                Ok(tokens) => tokenize(text@) == Ok::<Seq<Lexeme>, LexFault>(lexemes(tokens@)),
                Err(e) => tokenize(text@) == Err::<Seq<Lexeme>, LexFault>(e@),
            },
    {
        self.text_to_lex = chars_of(text.as_str());
        self.lex()
    }

    /// Tokenizes `text` with a tokenizer of its own.
    pub fn lex_string(text: String) -> (r: Result<Vec<Token>, LexError>)
        requires
            text@.len() <= i32::MAX,
        ensures
            match r {
                Ok(tokens) => tokenize(text@) == Ok::<Seq<Lexeme>, LexFault>(lexemes(tokens@)),
                Err(e) => tokenize(text@) == Err::<Seq<Lexeme>, LexFault>(e@),
            },
    {
        let mut lexer = Lexer::new();
        lexer.lex_text(text)
    }
}

} // verus!
