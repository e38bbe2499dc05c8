//! Lexical analysis: classifies a raw character sequence into tokens.
//!
//! The cursor owns the character buffer with a trailing newline sentinel
//! appended, so the final statement needs no explicit line break and every
//! comment and string scan is stopped by the sentinel.  Reading past the end
//! yields the null character, which lexes as `EOF`.  Identifiers and
//! keywords are ASCII: a letter opens one, letters and digits continue it,
//! and any character outside the token forms is a lexical failure.
//!
//! What `get_token` returns is specified exactly by the spec function
//! [`scan`]: the token's lexeme, its category, and the cursor position after
//! it, or the lexical failure.

use vstd::prelude::*;

use crate::error::{is_lex_error, CompileError};
use crate::token::{ident_token_type, classify_ident, Token, TokenType};

verus! {

/// The character at a position, with the null character standing for every
/// position outside the buffer.
pub open spec fn char_at(s: Seq<char>, i: int) -> char {
    if 0 <= i < s.len() {
        s[i]
    } else {
        '\0'
    }
}

/// Horizontal whitespace between tokens.
pub open spec fn is_space(c: char) -> bool {
    c == ' ' || c == '\t' || c == '\r'
}

/// Decimal digits, the only digits the language knows.
pub open spec fn is_digit(c: char) -> bool {
    '0' <= c && c <= '9'
}

/// ASCII letters, which open an identifier or keyword.
pub open spec fn is_alpha(c: char) -> bool {
    ('a' <= c && c <= 'z') || ('A' <= c && c <= 'Z')
}

/// Letters and digits, which continue an identifier or keyword.
pub open spec fn is_alnum(c: char) -> bool {
    is_alpha(c) || is_digit(c)
}

/// Characters that may not appear inside a string literal: they are reserved
/// for the target format's substitution mechanism.
pub open spec fn is_bad_string_char(c: char) -> bool {
    c == '\r' || c == '\n' || c == '\t' || c == '\\' || c == '%'
}

/// The first position at or after `i` that holds no whitespace.
pub open spec fn skip_spaces(s: Seq<char>, i: int) -> int
    decreases s.len() - i,
{
    if is_space(char_at(s, i)) {
        skip_spaces(s, i + 1)
    } else {
        i
    }
}

/// The first position at or after `i` that holds a newline, clamped to the
/// end of the buffer.
pub open spec fn line_end(s: Seq<char>, i: int) -> int
    decreases s.len() - i,
{
    if char_at(s, i) == '\n' || i >= s.len() {
        i
    } else {
        line_end(s, i + 1)
    }
}

/// The position where trivia ends: whitespace is skipped, then one comment
/// (`--` through, but not past, the next newline) if one starts there.
pub open spec fn after_trivia(s: Seq<char>, i: int) -> int {
    let j = skip_spaces(s, i);
    if char_at(s, j) == '-' && char_at(s, j + 1) == '-' {
        line_end(s, j)
    } else {
        j
    }
}

/// The first position at or after `i` that closes a string body: a quote, an
/// illegal character, or the end of the buffer.
pub open spec fn string_body_end(s: Seq<char>, i: int) -> int
    decreases s.len() - i,
{
    if i >= s.len() {
        i
    } else if char_at(s, i) == '"' || is_bad_string_char(char_at(s, i)) {
        i
    } else {
        string_body_end(s, i + 1)
    }
}

/// The first position at or after `i` that holds no digit.
pub open spec fn digits_end(s: Seq<char>, i: int) -> int
    decreases s.len() - i,
{
    if is_digit(char_at(s, i)) {
        digits_end(s, i + 1)
    } else {
        i
    }
}

/// The first position at or after `i` that holds no letter and no digit.
pub open spec fn alnum_end(s: Seq<char>, i: int) -> int
    decreases s.len() - i,
{
    if is_alnum(char_at(s, i)) {
        alnum_end(s, i + 1)
    } else {
        i
    }
}

/// One step of the lexer: the token found at a position (its lexeme, its
/// category, and the position just past it), or the lexical failure.
pub enum LexStep {
    Tok { text: Seq<char>, ttype: TokenType, next: int },
    Fail { err: CompileError },
}

/// Scans a string literal whose opening quote stands at `i`.
pub open spec fn scan_string(s: Seq<char>, i: int) -> LexStep {
    let j = string_body_end(s, i + 1);
    if j < s.len() && char_at(s, j) == '"' {
        LexStep::Tok { text: s.subrange(i + 1, j), ttype: TokenType::STRING, next: j + 1 }
    } else {
        LexStep::Fail { err: CompileError::IllegalStringChar }
    }
}

/// Scans a numeric literal whose first digit stands at `i`: one or more
/// digits, optionally a dot that at least one digit must follow.
pub open spec fn scan_number(s: Seq<char>, i: int) -> LexStep {
    let e = digits_end(s, i);
    if char_at(s, e) == '.' {
        if !is_digit(char_at(s, e + 1)) {
            LexStep::Fail { err: CompileError::IllegalNumberChar }
        } else {
            let e2 = digits_end(s, e + 1);
            LexStep::Tok { text: s.subrange(i, e2), ttype: TokenType::NUMBER, next: e2 }
        }
    } else {
        LexStep::Tok { text: s.subrange(i, e), ttype: TokenType::NUMBER, next: e }
    }
}

/// Scans an identifier or keyword whose first letter stands at `i`.
pub open spec fn scan_ident(s: Seq<char>, i: int) -> LexStep {
    let e = alnum_end(s, i);
    LexStep::Tok {
        text: s.subrange(i, e),
        ttype: ident_token_type(s.subrange(i, e)),
        next: e,
    }
}

/// The lexer's single step, in full: skip trivia, then classify by the
/// current character and one character of lookahead.  Two-character
/// operators take priority over their one-character prefixes.
pub open spec fn scan(s: Seq<char>, pos: int) -> LexStep {
    let i = after_trivia(s, pos);
    let c = char_at(s, i);
    let d = char_at(s, i + 1);
    if c == '+' {
        LexStep::Tok { text: seq![c], ttype: TokenType::PLUS, next: i + 1 }
    } else if c == '-' {
        LexStep::Tok { text: seq![c], ttype: TokenType::MINUS, next: i + 1 }
    } else if c == '*' {
        LexStep::Tok { text: seq![c], ttype: TokenType::ASTERISK, next: i + 1 }
    } else if c == '/' {
        LexStep::Tok { text: seq![c], ttype: TokenType::SLASH, next: i + 1 }
    } else if c == '\n' {
        LexStep::Tok { text: seq![c], ttype: TokenType::NEWLINE, next: i + 1 }
    } else if c == '>' {
        if d == '=' {
            LexStep::Tok { text: seq![c, d], ttype: TokenType::GTEQ, next: i + 2 }
        } else {
            LexStep::Tok { text: seq![c], ttype: TokenType::GT, next: i + 1 }
        }
    } else if c == '<' {
        if d == '=' {
            LexStep::Tok { text: seq![c, d], ttype: TokenType::LTEQ, next: i + 2 }
        } else {
            LexStep::Tok { text: seq![c], ttype: TokenType::LT, next: i + 1 }
        }
    } else if c == '!' {
        if d == '=' {
            LexStep::Tok { text: seq![c, d], ttype: TokenType::NOTEQ, next: i + 2 }
        } else {
            LexStep::Tok { text: seq![c], ttype: TokenType::NOT, next: i + 1 }
        }
    } else if c == '=' {
        if d == '=' {
            LexStep::Tok { text: seq![c, d], ttype: TokenType::EQEQ, next: i + 2 }
        } else {
            LexStep::Tok { text: seq![c], ttype: TokenType::EQ, next: i + 1 }
        }
    } else if c == '\0' {
        LexStep::Tok {
            text: seq![c],
            ttype: TokenType::EOF,
            next: if i + 1 <= s.len() {
                i + 1
            } else {
                s.len() as int
            },
        }
    } else if c == '"' {
        scan_string(s, i)
    } else if is_digit(c) {
        scan_number(s, i)
    } else if is_alpha(c) {
        scan_ident(s, i)
    } else {
        LexStep::Fail { err: CompileError::UnknownToken }
    }
}

proof fn lemma_skip_spaces_bounds(s: Seq<char>, i: int)
    requires
        0 <= i <= s.len(),
    ensures
        i <= skip_spaces(s, i) <= s.len(),
    decreases s.len() - i,
{
    if is_space(char_at(s, i)) {
        lemma_skip_spaces_bounds(s, i + 1);
    }
}

proof fn lemma_line_end_bounds(s: Seq<char>, i: int)
    requires
        0 <= i <= s.len(),
    ensures
        i <= line_end(s, i) <= s.len(),
    decreases s.len() - i,
{
    if !(char_at(s, i) == '\n' || i >= s.len()) {
        lemma_line_end_bounds(s, i + 1);
    }
}

proof fn lemma_string_body_end_bounds(s: Seq<char>, i: int)
    requires
        0 <= i <= s.len(),
    ensures
        i <= string_body_end(s, i) <= s.len(),
    decreases s.len() - i,
{
    if i < s.len() && !(char_at(s, i) == '"' || is_bad_string_char(char_at(s, i))) {
        lemma_string_body_end_bounds(s, i + 1);
    }
}

proof fn lemma_digits_end_bounds(s: Seq<char>, i: int)
    requires
        0 <= i <= s.len(),
    ensures
        i <= digits_end(s, i) <= s.len(),
    decreases s.len() - i,
{
    if is_digit(char_at(s, i)) {
        lemma_digits_end_bounds(s, i + 1);
    }
}

proof fn lemma_alnum_end_bounds(s: Seq<char>, i: int)
    requires
        0 <= i <= s.len(),
    ensures
        i <= alnum_end(s, i) <= s.len(),
    decreases s.len() - i,
{
    if is_alnum(char_at(s, i)) {
        lemma_alnum_end_bounds(s, i + 1);
    }
}

proof fn lemma_after_trivia_bounds(s: Seq<char>, i: int)
    requires
        0 <= i <= s.len(),
    ensures
        i <= after_trivia(s, i) <= s.len(),
{
    lemma_skip_spaces_bounds(s, i);
    let j = skip_spaces(s, i);
    if char_at(s, j) == '-' && char_at(s, j + 1) == '-' {
        lemma_line_end_bounds(s, j);
    }
}

/// Every token a scan yields lies within the buffer, and every token but
/// `EOF` moves the cursor strictly forward.
proof fn lemma_scan_in_bounds(s: Seq<char>, pos: int)
    requires
        0 <= pos <= s.len(),
    ensures
        match scan(s, pos) {
            LexStep::Tok { text, ttype, next } => pos <= next <= s.len() && (ttype
                != TokenType::EOF ==> pos < next),
            LexStep::Fail { .. } => true,
        },
{
    lemma_after_trivia_bounds(s, pos);
    let i = after_trivia(s, pos);
    let c = char_at(s, i);
    if c == '"' {
        lemma_string_body_end_bounds(s, i + 1);
    } else if is_digit(c) {
        lemma_digits_end_bounds(s, i + 1);
        assert(digits_end(s, i) == digits_end(s, i + 1));
        let e = digits_end(s, i);
        if char_at(s, e) == '.' && is_digit(char_at(s, e + 1)) {
            lemma_digits_end_bounds(s, e + 1);
        }
    } else if is_alpha(c) {
        lemma_alnum_end_bounds(s, i + 1);
        assert(alnum_end(s, i) == alnum_end(s, i + 1));
    }
}

/// A scan can fail only with one of the lexical failures: an unknown
/// character, an illegal character in a string, or a malformed number.
pub proof fn lemma_scan_fail_is_lex(s: Seq<char>, pos: int)
    ensures
        (match scan(s, pos) {
            LexStep::Fail { err } => is_lex_error(err),
            LexStep::Tok { .. } => true,
        }),
{
}

/// The lexer cursor: the buffer (with its sentinel), the read position, and
/// the character under the cursor.
pub struct Lexer {
    source: Vec<char>,
    current_char: char,
    current_position: usize,
}

impl Lexer {
    /// The full character buffer, sentinel included.
    pub closed spec fn src(&self) -> Seq<char> {
        self.source@
    }

    /// The current read position.
    pub closed spec fn pos(&self) -> int {
        self.current_position as int
    }

    /// The cursor invariant: the position never leaves the buffer by more
    /// than one-past-the-end, the cached character is the one at the
    /// position, and the sentinel newline ends the buffer.
    pub closed spec fn wf(&self) -> bool {
        &&& self.current_position <= self.source.len()
        &&& self.current_char == char_at(self.source@, self.current_position as int)
        &&& self.source.len() >= 1
        &&& self.source@[self.source@.len() - 1] == '\n'
    }

    /// A well-formed cursor never leaves the buffer.
    pub proof fn lemma_pos_in_bounds(&self)
        requires
            self.wf(),
        ensures
            0 <= self.pos() <= self.src().len(),
    {
    }

    /// Takes ownership of the source text and appends the newline sentinel.
    pub fn new(source: Vec<char>) -> (l: Lexer)
        ensures
            l.wf(),
            l.src() == source@ + seq!['\n'],
            l.pos() == 0,
    {
        let mut buf = source;
        buf.push('\n');
        let c = buf[0];
        Lexer { source: buf, current_char: c, current_position: 0 }
    }

    /// Advances the cursor, clamping at one past the last character.
    pub fn next_char(&mut self, steps: usize)
        requires
            old(self).wf(),
        ensures
            final(self).wf(),
            final(self).src() == old(self).src(),
            final(self).pos() == if old(self).pos() + steps <= old(self).src().len() {
                old(self).pos() + steps
            } else {
                old(self).src().len() as int
            },
    {
        if self.source.len() - self.current_position >= steps {
            self.current_position = self.current_position + steps;
        } else {
            self.current_position = self.source.len();
        }
        if self.current_position < self.source.len() {
            self.current_char = self.source[self.current_position];
        } else {
            self.current_char = '\0';
        }
    }

    /// One character of lookahead, without moving the cursor.
    pub fn peek(&self) -> (c: char)
        requires
            self.wf(),
        ensures
            c == char_at(self.src(), self.pos() + 1),
    {
        if self.current_position >= self.source.len() {
            return '\0';
        }
        let next = self.current_position + 1;
        if next >= self.source.len() {
            '\0'
        } else {
            self.source[next]
        }
    }

    /// A copy of the characters in `[from, to)`.
    fn copy_range(&self, from: usize, to: usize) -> (r: Vec<char>)
        requires
            from <= to <= self.src().len(),
        ensures
            r@ == self.src().subrange(from as int, to as int),
    {
        let mut r: Vec<char> = Vec::new();
        let mut k = from;
        while k < to
            invariant
                from <= k <= to <= self.src().len(),
                r@.len() == k - from,
                forall|j: int| 0 <= j < r@.len() ==> r@[j] == self.src()[from + j],
            decreases to - k,
        {
            r.push(self.source[k]);
            k = k + 1;
        }
        proof {
            assert(r@ =~= self.src().subrange(from as int, to as int));
        }
        r
    }

    /// Skips the run of whitespace under the cursor.
    fn skip_whitespace(&mut self)
        requires
            old(self).wf(),
        ensures
            final(self).wf(),
            final(self).src() == old(self).src(),
            final(self).pos() == skip_spaces(old(self).src(), old(self).pos()),
    {
        while self.current_char == ' ' || self.current_char == '\t' || self.current_char == '\r'
            invariant
                self.wf(),
                self.src() == old(self).src(),
                skip_spaces(self.src(), old(self).pos()) == skip_spaces(self.src(), self.pos()),
            decreases self.src().len() - self.pos(),
        {
            self.next_char(1);
        }
    }

    /// Skips one comment, if the cursor stands on `--`: everything through,
    /// but not past, the next newline.
    fn skip_comment(&mut self)
        requires
            old(self).wf(),
        ensures
            final(self).wf(),
            final(self).src() == old(self).src(),
            final(self).pos() == if char_at(old(self).src(), old(self).pos()) == '-' && char_at(
                old(self).src(),
                old(self).pos() + 1,
            ) == '-' {
                line_end(old(self).src(), old(self).pos())
            } else {
                old(self).pos()
            },
    {
        if self.current_char == '-' && self.peek() == '-' {
            while self.current_char != '\n'
                invariant
                    self.wf(),
                    self.src() == old(self).src(),
                    self.pos() <= self.src().len() - 1,
                    line_end(self.src(), old(self).pos()) == line_end(self.src(), self.pos()),
                decreases self.src().len() - self.pos(),
            {
                self.next_char(1);
            }
        }
    }

    /// Builds a one-character token from the character under the cursor and
    /// advances past it.
    fn take_one(&mut self, ttype: TokenType) -> (t: Token)
        requires
            old(self).wf(),
        ensures
            final(self).wf(),
            final(self).src() == old(self).src(),
            final(self).pos() == if old(self).pos() + 1 <= old(self).src().len() {
                old(self).pos() + 1
            } else {
                old(self).src().len() as int
            },
            t.text@ == seq![char_at(old(self).src(), old(self).pos())],
            t.ttype == ttype,
    {
        let mut v: Vec<char> = Vec::new();
        v.push(self.current_char);
        let text = chars_to_string(&v);
        self.next_char(1);
        proof {
            assert(v@ =~= seq![char_at(old(self).src(), old(self).pos())]);
        }
        Token::new(text, ttype)
    }

    /// Builds a two-character token from the cursor and its lookahead and
    /// advances past both.
    fn take_two(&mut self, ttype: TokenType) -> (t: Token)
        requires
            old(self).wf(),
            old(self).pos() + 2 <= old(self).src().len(),
        ensures
            final(self).wf(),
            final(self).src() == old(self).src(),
            final(self).pos() == old(self).pos() + 2,
            t.text@ == seq![
                char_at(old(self).src(), old(self).pos()),
                char_at(old(self).src(), old(self).pos() + 1),
            ],
            t.ttype == ttype,
    {
        let mut v: Vec<char> = Vec::new();
        v.push(self.current_char);
        v.push(self.peek());
        let text = chars_to_string(&v);
        self.next_char(2);
        proof {
            assert(v@ =~= seq![
                char_at(old(self).src(), old(self).pos()),
                char_at(old(self).src(), old(self).pos() + 1),
            ]);
        }
        Token::new(text, ttype)
    }

    /// Scans the string literal whose opening quote is under the cursor.
    fn check_string(&mut self) -> (r: Result<Token, CompileError>)
        requires
            old(self).wf(),
            char_at(old(self).src(), old(self).pos()) == '"',
        ensures
            final(self).wf(),
            final(self).src() == old(self).src(),
            (match scan_string(old(self).src(), old(self).pos()) {
                LexStep::Tok { text, ttype, next } => r matches Ok(t) && t.text@ == text && t.ttype
                    == ttype && final(self).pos() == next,
                LexStep::Fail { err } => r == Result::<Token, CompileError>::Err(err),
            }),
    {
        let ghost s = self.src();
        let ghost i0 = self.pos();
        self.next_char(1);
        let start = self.current_position;
        proof {
            // The sentinel newline is not a quote, so the quote is not the
            // last character and the cursor stays inside the buffer.
            assert(start == i0 + 1);
        }
        while self.current_char != '"'
            invariant
                self.wf(),
                s == old(self).src(),
                i0 == old(self).pos(),
                self.src() == s,
                start == i0 + 1,
                start <= self.pos() <= self.src().len() - 1,
                string_body_end(s, start as int) == string_body_end(s, self.pos()),
            decreases self.src().len() - self.pos(),
        {
            let c = self.current_char;
            if c == '\r' || c == '\n' || c == '\t' || c == '\\' || c == '%' {
                return Err(CompileError::IllegalStringChar);
            }
            self.next_char(1);
        }
        let close = self.current_position;
        let chars = self.copy_range(start, close);
        let text = chars_to_string(&chars);
        let t = Token::new(text, TokenType::STRING);
        self.next_char(1);
        Ok(t)
    }

    /// Scans the numeric literal whose first digit is under the cursor.
    fn check_numeric(&mut self) -> (r: Result<Token, CompileError>)
        requires
            old(self).wf(),
            is_digit(char_at(old(self).src(), old(self).pos())),
        ensures
            final(self).wf(),
            final(self).src() == old(self).src(),
            (match scan_number(old(self).src(), old(self).pos()) {
                LexStep::Tok { text, ttype, next } => r matches Ok(t) && t.text@ == text && t.ttype
                    == ttype && final(self).pos() == next,
                LexStep::Fail { err } => r == Result::<Token, CompileError>::Err(err),
            }),
    {
        let ghost s = self.src();
        let ghost i0 = self.pos();
        let start = self.current_position;
        while '0' <= self.peek() && self.peek() <= '9'
            invariant
                self.wf(),
                self.src() == s,
                i0 <= self.pos() <= self.src().len() - 1,
                is_digit(char_at(s, self.pos())),
                digits_end(s, i0) == digits_end(s, self.pos() + 1),
            decreases self.src().len() - self.pos(),
        {
            self.next_char(1);
        }
        let ghost e = digits_end(s, i0);
        proof {
            assert(e == self.pos() + 1);
        }
        if self.peek() == '.' {
            self.next_char(1);
            let p = self.peek();
            if !('0' <= p && p <= '9') {
                return Err(CompileError::IllegalNumberChar);
            }
            while '0' <= self.peek() && self.peek() <= '9'
                invariant
                    self.wf(),
                    self.src() == s,
                    e <= self.pos() <= self.src().len() - 1,
                    self.pos() == e || is_digit(char_at(s, self.pos())),
                    digits_end(s, e + 1) == digits_end(s, self.pos() + 1),
                decreases self.src().len() - self.pos(),
            {
                self.next_char(1);
            }
        }
        let end = self.current_position + 1;
        let chars = self.copy_range(start, end);
        let text = chars_to_string(&chars);
        let t = Token::new(text, TokenType::NUMBER);
        self.next_char(1);
        Ok(t)
    }

    /// Scans the identifier or keyword whose first letter is under the
    /// cursor.
    fn check_ident(&mut self) -> (r: Result<Token, CompileError>)
        requires
            old(self).wf(),
            is_alpha(char_at(old(self).src(), old(self).pos())),
        ensures
            final(self).wf(),
            final(self).src() == old(self).src(),
            (match scan_ident(old(self).src(), old(self).pos()) {
                LexStep::Tok { text, ttype, next } => r matches Ok(t) && t.text@ == text && t.ttype
                    == ttype && final(self).pos() == next,
                LexStep::Fail { err } => r == Result::<Token, CompileError>::Err(err),
            }),
    {
        let ghost s = self.src();
        let ghost i0 = self.pos();
        let start = self.current_position;
        while is_alnum_char(self.peek())
            invariant
                self.wf(),
                self.src() == s,
                i0 <= self.pos() <= self.src().len() - 1,
                is_alnum(char_at(s, self.pos())),
                alnum_end(s, i0) == alnum_end(s, self.pos() + 1),
            decreases self.src().len() - self.pos(),
        {
            self.next_char(1);
        }
        let end = self.current_position + 1;
        let chars = self.copy_range(start, end);
        let ttype = classify_ident(&chars);
        let text = chars_to_string(&chars);
        let t = Token::new(text, ttype);
        self.next_char(1);
        Ok(t)
    }

    /// Produces the next token, exactly as [`scan`] describes, or the
    /// lexical failure.  After the `EOF` token the cursor stays put and
    /// every further call returns `EOF` again.
    pub fn get_token(&mut self) -> (r: Result<Token, CompileError>)
        requires
            old(self).wf(),
        ensures
            final(self).wf(),
            final(self).src() == old(self).src(),
            (match scan(old(self).src(), old(self).pos()) {
                LexStep::Tok { text, ttype, next } => r matches Ok(t) && t.text@ == text && t.ttype
                    == ttype && final(self).pos() == next,
                LexStep::Fail { err } => r == Result::<Token, CompileError>::Err(err),
            }),
            (r matches Ok(t) ==> old(self).pos() <= final(self).pos() <= old(self).src().len() && (
            t.ttype != TokenType::EOF ==> old(self).pos() < final(self).pos())),
    {
        proof {
            lemma_scan_in_bounds(old(self).src(), old(self).pos());
        }
        self.skip_whitespace();
        self.skip_comment();
        let ghost s = self.src();
        let ghost i = self.pos();
        proof {
            assert(i == after_trivia(s, old(self).pos()));
        }
        let c = self.current_char;
        let d = self.peek();
        if c == '+' {
            Ok(self.take_one(TokenType::PLUS))
        } else if c == '-' {
            Ok(self.take_one(TokenType::MINUS))
        } else if c == '*' {
            Ok(self.take_one(TokenType::ASTERISK))
        } else if c == '/' {
            Ok(self.take_one(TokenType::SLASH))
        } else if c == '\n' {
            Ok(self.take_one(TokenType::NEWLINE))
        } else if c == '>' {
            if d == '=' {
                Ok(self.take_two(TokenType::GTEQ))
            } else {
                Ok(self.take_one(TokenType::GT))
            }
        } else if c == '<' {
            if d == '=' {
                Ok(self.take_two(TokenType::LTEQ))
            } else {
                Ok(self.take_one(TokenType::LT))
            }
        } else if c == '!' {
            if d == '=' {
                Ok(self.take_two(TokenType::NOTEQ))
            } else {
                Ok(self.take_one(TokenType::NOT))
            }
        } else if c == '=' {
            if d == '=' {
                Ok(self.take_two(TokenType::EQEQ))
            } else {
                Ok(self.take_one(TokenType::EQ))
            }
        } else if c == '\0' {
            Ok(self.take_one(TokenType::EOF))
        } else if c == '"' {
            self.check_string()
        } else if '0' <= c && c <= '9' {
            self.check_numeric()
        } else if ('a' <= c && c <= 'z') || ('A' <= c && c <= 'Z') {
            self.check_ident()
        } else {
            Err(CompileError::UnknownToken)
        }
    }
}

/// A well-formed numeric lexeme: one or more digits, optionally followed by
/// a dot that at least one digit follows.  Every `NUMBER` token the lexer
/// produces has this shape.
pub open spec fn is_number_text(t: Seq<char>) -> bool {
    ||| (t.len() >= 1 && forall|i: int| 0 <= i < t.len() ==> is_digit(t[i]))
    ||| (exists|k: int|
        1 <= k && k + 2 <= t.len() && t[k] == '.' && (forall|i: int|
            0 <= i < k ==> is_digit(t[i])) && (forall|i: int|
            k < i < t.len() ==> is_digit(t[i])))
}

/// A well-formed identifier lexeme: a letter, then letters and digits.
pub open spec fn is_ident_text(t: Seq<char>) -> bool {
    t.len() >= 1 && is_alpha(t[0]) && forall|i: int| 0 <= i < t.len() ==> is_alnum(t[i])
}

/// The lexeme of each operator token the lexer can produce.
pub open spec fn op_lexeme(t: Seq<char>, ty: TokenType) -> bool {
    ||| (t == seq!['+'] && ty == TokenType::PLUS)
    ||| (t == seq!['-'] && ty == TokenType::MINUS)
    ||| (t == seq!['*'] && ty == TokenType::ASTERISK)
    ||| (t == seq!['/'] && ty == TokenType::SLASH)
    ||| (t == seq!['>'] && ty == TokenType::GT)
    ||| (t == seq!['>', '='] && ty == TokenType::GTEQ)
    ||| (t == seq!['<'] && ty == TokenType::LT)
    ||| (t == seq!['<', '='] && ty == TokenType::LTEQ)
    ||| (t == seq!['!'] && ty == TokenType::NOT)
    ||| (t == seq!['!', '='] && ty == TokenType::NOTEQ)
    ||| (t == seq!['='] && ty == TokenType::EQ)
    ||| (t == seq!['=', '='] && ty == TokenType::EQEQ)
}

proof fn lemma_digits_end_run(s: Seq<char>, i: int, j: int)
    requires
        0 <= i <= j <= s.len(),
        forall|m: int| i <= m < j ==> is_digit(s[m]),
        !is_digit(char_at(s, j)),
    ensures
        digits_end(s, i) == j,
    decreases j - i,
{
    if i < j {
        lemma_digits_end_run(s, i + 1, j);
    }
}

proof fn lemma_alnum_end_run(s: Seq<char>, i: int, j: int)
    requires
        0 <= i <= j <= s.len(),
        forall|m: int| i <= m < j ==> is_alnum(s[m]),
        !is_alnum(char_at(s, j)),
    ensures
        alnum_end(s, i) == j,
    decreases j - i,
{
    if i < j {
        lemma_alnum_end_run(s, i + 1, j);
    }
}

proof fn lemma_digits_end_chars(s: Seq<char>, i: int)
    requires
        0 <= i <= s.len(),
    ensures
        forall|m: int| i <= m < digits_end(s, i) ==> is_digit(s[m]),
        !is_digit(char_at(s, digits_end(s, i))),
    decreases s.len() - i,
{
    if is_digit(char_at(s, i)) {
        lemma_digits_end_chars(s, i + 1);
    }
}

proof fn lemma_alnum_end_chars(s: Seq<char>, i: int)
    requires
        0 <= i <= s.len(),
    ensures
        forall|m: int| i <= m < alnum_end(s, i) ==> is_alnum(s[m]),
        !is_alnum(char_at(s, alnum_end(s, i))),
    decreases s.len() - i,
{
    if is_alnum(char_at(s, i)) {
        lemma_alnum_end_chars(s, i + 1);
    }
}

/// Every token a scan yields carries a lexeme of the shape its category
/// promises: numeric lexemes for `NUMBER`, identifier lexemes for `IDENT`
/// and the keywords, the fixed operator lexemes for the operators.  With the
/// round-trip lemmas below: whatever the lexer produced, re-emitting its
/// lexeme gives text the lexer reads back unchanged.
pub proof fn lemma_scan_token_shapes(s: Seq<char>, pos: int)
    requires
        0 <= pos <= s.len(),
    ensures
        (match scan(s, pos) {
            LexStep::Tok { text, ttype, next } => {
                &&& (ttype == TokenType::NUMBER ==> is_number_text(text))
                &&& (ttype == TokenType::IDENT ==> is_ident_text(text))
                &&& (ttype == TokenType::PLUS || ttype == TokenType::MINUS || ttype
                    == TokenType::ASTERISK || ttype == TokenType::SLASH || ttype == TokenType::GT
                    || ttype == TokenType::GTEQ || ttype == TokenType::LT || ttype
                    == TokenType::LTEQ || ttype == TokenType::EQ || ttype == TokenType::EQEQ
                    || ttype == TokenType::NOT || ttype == TokenType::NOTEQ ==> op_lexeme(
                    text,
                    ttype,
                ))
            },
            LexStep::Fail { .. } => true,
        }),
{
    lemma_after_trivia_bounds(s, pos);
    let i = after_trivia(s, pos);
    let c = char_at(s, i);
    if is_digit(c) {
        lemma_digits_end_chars(s, i);
        assert(digits_end(s, i) == digits_end(s, i + 1));
        lemma_digits_end_bounds(s, i + 1);
        let e = digits_end(s, i);
        if char_at(s, e) == '.' {
            if is_digit(char_at(s, e + 1)) {
                lemma_digits_end_chars(s, e + 1);
                lemma_digits_end_bounds(s, e + 1);
                let e2 = digits_end(s, e + 1);
                let text = s.subrange(i, e2);
                let k = e - i;
                assert(text[k] == '.');
                assert(forall|m: int| 0 <= m < k ==> is_digit(text[m]));
                assert(forall|m: int| k < m < text.len() ==> is_digit(text[m]));
                assert(is_number_text(text));
            }
        } else {
            let text = s.subrange(i, e);
            assert(forall|m: int| 0 <= m < text.len() ==> is_digit(text[m]));
            assert(is_number_text(text));
        }
    } else if is_alpha(c) {
        lemma_alnum_end_chars(s, i);
        assert(alnum_end(s, i) == alnum_end(s, i + 1));
        lemma_alnum_end_bounds(s, i + 1);
        let e = alnum_end(s, i);
        let text = s.subrange(i, e);
        assert(text[0] == c);
        assert(forall|m: int| 0 <= m < text.len() ==> is_alnum(text[m]));
        assert(is_ident_text(text));
    }
}

/// Round trip, numbers: re-lexing an emitted numeric lexeme, set off by a
/// line break, reproduces exactly that token and never a lexical failure.
pub proof fn lemma_number_text_relexes(t: Seq<char>)
    requires
        is_number_text(t),
    ensures
        (match scan(t + seq!['\n'], 0) {
            LexStep::Tok { text, ttype, next } => text == t && ttype == TokenType::NUMBER && next
                == t.len(),
            LexStep::Fail { .. } => false,
        }),
{
    let s = t + seq!['\n'];
    assert(char_at(s, 0) == t[0]);
    assert(is_digit(t[0]));
    assert(skip_spaces(s, 0) == 0);
    assert(after_trivia(s, 0) == 0);
    assert(char_at(s, t.len() as int) == '\n');
    if t.len() >= 1 && forall|i: int| 0 <= i < t.len() ==> is_digit(t[i]) {
        lemma_digits_end_run(s, 0, t.len() as int);
        assert(s.subrange(0, t.len() as int) =~= t);
    } else {
        let k = choose|k: int|
            1 <= k && k + 2 <= t.len() && t[k] == '.' && (forall|i: int|
                0 <= i < k ==> is_digit(t[i])) && (forall|i: int|
                k < i < t.len() ==> is_digit(t[i]));
        lemma_digits_end_run(s, 0, k);
        assert(char_at(s, k) == '.');
        assert(is_digit(char_at(s, k + 1)));
        lemma_digits_end_run(s, k + 1, t.len() as int);
        assert(s.subrange(0, t.len() as int) =~= t);
    }
}

/// Round trip, identifiers: re-lexing an emitted identifier lexeme
/// reproduces exactly that token, with its keyword-or-identifier category,
/// and never a lexical failure.
pub proof fn lemma_ident_text_relexes(t: Seq<char>)
    requires
        is_ident_text(t),
    ensures
        (match scan(t + seq!['\n'], 0) {
            LexStep::Tok { text, ttype, next } => text == t && ttype == ident_token_type(t) && next
                == t.len(),
            LexStep::Fail { .. } => false,
        }),
{
    let s = t + seq!['\n'];
    assert(char_at(s, 0) == t[0]);
    assert(skip_spaces(s, 0) == 0);
    assert(after_trivia(s, 0) == 0);
    assert(char_at(s, t.len() as int) == '\n');
    lemma_alnum_end_run(s, 0, t.len() as int);
    assert(s.subrange(0, t.len() as int) =~= t);
}

/// Round trip, operators: re-lexing a re-emitted operator lexeme reproduces
/// exactly that token and never a lexical failure.
pub proof fn lemma_operator_text_relexes(t: Seq<char>, ty: TokenType)
    requires
        op_lexeme(t, ty),
    ensures
        (match scan(t + seq!['\n'], 0) {
            LexStep::Tok { text, ttype, next } => text == t && ttype == ty && next == t.len(),
            LexStep::Fail { .. } => false,
        }),
{
    let s = t + seq!['\n'];
    assert(char_at(s, 0) == t[0]);
    assert(skip_spaces(s, 0) == 0);
    assert(char_at(s, t.len() as int) == '\n');
    if t.len() == 1 {
        assert(char_at(s, 1) == '\n');
        assert(after_trivia(s, 0) == 0);
        assert(s.subrange(0, 1) =~= t);
    } else {
        assert(char_at(s, 1) == t[1]);
        assert(after_trivia(s, 0) == 0);
        assert(s.subrange(0, 2) =~= t);
    }
}

/// Decides `is_alnum`.
fn is_alnum_char(c: char) -> (r: bool)
    ensures
        r == is_alnum(c),
{
    ('a' <= c && c <= 'z') || ('A' <= c && c <= 'Z') || ('0' <= c && c <= '9')
}

/// Relies on `String`'s `FromIterator<char>`: collecting characters yields
/// the string of exactly those characters, in order.
#[verifier::external_body]
pub(crate) fn chars_to_string(v: &Vec<char>) -> (r: String)
    ensures
        r@ == v@,
{
    v.iter().collect()
}

} // verus!
