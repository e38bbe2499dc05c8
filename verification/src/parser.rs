//! Recursive-descent parsing with embedded semantic checks and interleaved
//! code emission.
//!
//! The parser pulls tokens from the lexer on demand, keeping the current
//! token and one token of lookahead.  For each grammar rule it recognizes it
//! appends translated fragments to the emitter; it tracks the set of declared
//! variables and the sets of declared and used labels, and reports the first
//! grammar or semantic failure as an error value.
//!
//! Termination of the mutually recursive rule procedures rests on a measure:
//! the characters the lexer has not yet consumed, plus one for each buffered
//! token that is not `EOF`.  Every token taken in strictly shrinks it.

use vstd::prelude::*;

use crate::emitter::Emitter;
use crate::error::{is_lex_error, CompileError};
use crate::lexer::{scan, LexStep, Lexer};
use crate::token::{Token, TokenType};

verus! {

/// The program prologue, written to the header buffer before parsing.
pub open spec fn prologue_text() -> Seq<char> {
    "#include <stdio.h>"@ + seq!['\n'] + "int main (void) {"@ + seq!['\n']
}

/// The program epilogue, written to the code buffer after the last
/// statement.
pub open spec fn epilogue_text() -> Seq<char> {
    "return 0;"@ + seq!['\n'] + "}"@ + seq!['\n']
}

/// The header line that declares a numeric variable.
pub open spec fn decl_line(name: Seq<char>) -> Seq<char> {
    "float "@ + name + ";"@ + seq!['\n']
}

/// The code line that declares a jump target.
pub open spec fn label_line(name: Seq<char>) -> Seq<char> {
    name + ":"@ + seq!['\n']
}

/// The code line that jumps to a label.
pub open spec fn goto_line(name: Seq<char>) -> Seq<char> {
    "goto "@ + name + ";"@ + seq!['\n']
}

/// The code line that prints a string literal verbatim.
pub open spec fn print_string_line(text: Seq<char>) -> Seq<char> {
    "printf(\""@ + text + "\\n\");"@ + seq!['\n']
}

/// The guarded numeric read that `INPUT` emits: on a failed input parse the
/// generated program resets the variable to zero and discards the offending
/// input token.
pub open spec fn input_block(name: Seq<char>) -> Seq<char> {
    "if (0 == scanf(\"%f\", &"@ + name + ")) {"@ + seq!['\n'] + name + " = 0;"@ + seq!['\n']
        + "scanf(\"%"@ + "*s\");"@ + seq!['\n'] + "}"@ + seq!['\n']
}

/// The set of names a table of strings holds.
pub open spec fn name_set(v: Seq<String>) -> Set<Seq<char>> {
    v.map_values(|s: String| s@).to_set()
}

/// The token categories that may open a statement.
pub open spec fn is_statement_keyword(t: TokenType) -> bool {
    ||| t == TokenType::PRINT
    ||| t == TokenType::IF
    ||| t == TokenType::WHILE
    ||| t == TokenType::LABEL
    ||| t == TokenType::GOTO
    ||| t == TokenType::LET
    ||| t == TokenType::INPUT
}

/// The token categories that compare two expressions.
pub open spec fn is_cmp_op(t: TokenType) -> bool {
    ||| t == TokenType::GT
    ||| t == TokenType::GTEQ
    ||| t == TokenType::LT
    ||| t == TokenType::LTEQ
    ||| t == TokenType::EQEQ
    ||| t == TokenType::NOTEQ
}

/// A token that a `primary` accepts outright: a number, or an identifier
/// that already stands in the given symbol table.
pub open spec fn bare_operand(cur: Token, syms: Set<Seq<char>>) -> bool {
    cur.ttype == TokenType::NUMBER || (cur.ttype == TokenType::IDENT && syms.contains(cur.text@))
}

/// A token category that continues an expression after an operand: one of
/// the four arithmetic operators.
pub open spec fn continues_expression(t: TokenType) -> bool {
    ||| t == TokenType::PLUS
    ||| t == TokenType::MINUS
    ||| t == TokenType::ASTERISK
    ||| t == TokenType::SLASH
}

/// The errors an expression, term, unary or primary can report.
pub open spec fn is_expression_error(e: CompileError) -> bool {
    ||| e == CompileError::ExpectedToken
    ||| e == CompileError::UndeclaredVariable
    ||| is_lex_error(e)
}

/// How much a buffered token still contributes to the parser's termination
/// measure: nothing once the stream has reached `EOF`.
pub open spec fn tok_weight(t: TokenType) -> nat {
    if t == TokenType::EOF {
        0nat
    } else {
        1nat
    }
}

/// Walks the token stream from a buffered token pair: the category of the
/// first token that is no newline — where the leading-blank-line skip stops —
/// or the lexical failure met on the way.  The buffered pair shifts exactly
/// as the parser's token advance does.
pub open spec fn first_past_newlines(
    s: Seq<char>,
    cur: TokenType,
    peek: TokenType,
    pos: int,
) -> Result<TokenType, CompileError>
    decreases s.len() - pos + tok_weight(cur) + tok_weight(peek),
{
    if cur != TokenType::NEWLINE {
        Ok(cur)
    } else {
        match scan(s, pos) {
            LexStep::Fail { err } => Err(err),
            LexStep::Tok { text, ttype, next } => if pos <= next <= s.len() && (ttype
                == TokenType::EOF || pos < next) {
                first_past_newlines(s, peek, ttype, next)
            } else {
                // A scan never leaves these bounds; the branch is out of the
                // lexer's reach.
                Ok(cur)
            },
        }
    }
}

/// What follows a two-token statement head once its own checks have passed:
/// the parser pulls one token while consuming the head, pulls one more while
/// matching the head's identifier or literal, then demands that the first of
/// the two is the terminating newline and that the blank-line run after it
/// lexes cleanly.  This is the whole remaining outcome of a `LABEL`, `GOTO`,
/// `INPUT` or string-printing statement.
pub open spec fn terminator_outcome(s: Seq<char>, pos: int) -> Result<(), CompileError> {
    match scan(s, pos) {
        LexStep::Fail { err } => Err(err),
        LexStep::Tok { text: x3, ttype: y3, next: n3 } => match scan(s, n3) {
            LexStep::Fail { err } => Err(err),
            LexStep::Tok { text: x4, ttype: y4, next: n4 } => if y3 != TokenType::NEWLINE {
                Err(CompileError::ExpectedToken)
            } else {
                match first_past_newlines(s, y3, y4, n4) {
                    Ok(t) => Ok(()),
                    Err(err) => Err(err),
                }
            },
        },
    }
}

/// A token at the specification level: the lexeme and its category.
pub struct STok {
    pub text: Seq<char>,
    pub ttype: TokenType,
}

/// The expression-level parser state: the buffered token pair and the lexer
/// position just past the lookahead.
pub struct EState {
    pub cur: STok,
    pub peek: STok,
    pub pos: int,
}

/// One parsed construct: the translation it appends to the code buffer and
/// the state after it, or the failure.
pub enum ParseStep {
    Next { emitted: Seq<char>, st: EState },
    Fail { err: CompileError },
}

/// The expression-level termination measure: unread characters plus the
/// buffered tokens that are not `EOF`.
pub open spec fn est_measure(s: Seq<char>, st: EState) -> int {
    s.len() - st.pos + tok_weight(st.cur.ttype) + tok_weight(st.peek.ttype)
}

/// Advances the buffered pair by one scanned token.
pub open spec fn sp_advance(s: Seq<char>, st: EState) -> Result<EState, CompileError> {
    match scan(s, st.pos) {
        LexStep::Fail { err } => Err(err),
        LexStep::Tok { text, ttype, next } => Ok(
            EState { cur: st.peek, peek: STok { text, ttype }, pos: next },
        ),
    }
}

/// `primary ::= NUMBER | IDENT` — the operand's lexeme is the translation;
/// an identifier must already stand in the symbol table.
pub open spec fn sp_primary(s: Seq<char>, st: EState, syms: Set<Seq<char>>) -> ParseStep {
    if st.cur.ttype == TokenType::NUMBER || (st.cur.ttype == TokenType::IDENT && syms.contains(
        st.cur.text,
    )) {
        match sp_advance(s, st) {
            Err(err) => ParseStep::Fail { err },
            Ok(st2) => ParseStep::Next { emitted: st.cur.text, st: st2 },
        }
    } else if st.cur.ttype == TokenType::IDENT {
        ParseStep::Fail { err: CompileError::UndeclaredVariable }
    } else {
        ParseStep::Fail { err: CompileError::ExpectedToken }
    }
}

/// `unary ::= ["+" | "-"] primary` — an optional sign, re-emitted as a
/// prefix of the operand's translation.
pub open spec fn sp_unary(s: Seq<char>, st: EState, syms: Set<Seq<char>>) -> ParseStep {
    if st.cur.ttype == TokenType::PLUS || st.cur.ttype == TokenType::MINUS {
        match sp_advance(s, st) {
            Err(err) => ParseStep::Fail { err },
            Ok(st2) => match sp_primary(s, st2, syms) {
                ParseStep::Fail { err } => ParseStep::Fail { err },
                ParseStep::Next { emitted, st: st3 } => ParseStep::Next {
                    emitted: st.cur.text + emitted,
                    st: st3,
                },
            },
        }
    } else {
        sp_primary(s, st, syms)
    }
}

/// The `{("*" | "/") unary}` tail of a term: each matched operator lexeme is
/// re-emitted verbatim between the operand translations.  The recursion is
/// guarded by the measure; a scan never leaves the guard's bounds.
pub open spec fn sp_term_rest(s: Seq<char>, st: EState, syms: Set<Seq<char>>) -> ParseStep
    decreases est_measure(s, st),
{
    if st.cur.ttype == TokenType::ASTERISK || st.cur.ttype == TokenType::SLASH {
        match sp_advance(s, st) {
            Err(err) => ParseStep::Fail { err },
            Ok(st2) => match sp_unary(s, st2, syms) {
                ParseStep::Fail { err } => ParseStep::Fail { err },
                ParseStep::Next { emitted: e2, st: st3 } => if 0 <= est_measure(s, st3)
                    && est_measure(s, st3) < est_measure(s, st) {
                    match sp_term_rest(s, st3, syms) {
                        ParseStep::Fail { err } => ParseStep::Fail { err },
                        ParseStep::Next { emitted: e3, st: st4 } => ParseStep::Next {
                            emitted: st.cur.text + e2 + e3,
                            st: st4,
                        },
                    }
                } else {
                    ParseStep::Fail { err: CompileError::ExpectedToken }
                },
            },
        }
    } else {
        ParseStep::Next { emitted: Seq::empty(), st }
    }
}

/// `term ::= unary {("*" | "/") unary}`.
pub open spec fn sp_term(s: Seq<char>, st: EState, syms: Set<Seq<char>>) -> ParseStep {
    match sp_unary(s, st, syms) {
        ParseStep::Fail { err } => ParseStep::Fail { err },
        ParseStep::Next { emitted: e1, st: st2 } => match sp_term_rest(s, st2, syms) {
            ParseStep::Fail { err } => ParseStep::Fail { err },
            ParseStep::Next { emitted: e2, st: st3 } => ParseStep::Next {
                emitted: e1 + e2,
                st: st3,
            },
        },
    }
}

/// The `{("+" | "-") term}` tail of an expression.
pub open spec fn sp_expr_rest(s: Seq<char>, st: EState, syms: Set<Seq<char>>) -> ParseStep
    decreases est_measure(s, st),
{
    if st.cur.ttype == TokenType::PLUS || st.cur.ttype == TokenType::MINUS {
        match sp_advance(s, st) {
            Err(err) => ParseStep::Fail { err },
            Ok(st2) => match sp_term(s, st2, syms) {
                ParseStep::Fail { err } => ParseStep::Fail { err },
                ParseStep::Next { emitted: e2, st: st3 } => if 0 <= est_measure(s, st3)
                    && est_measure(s, st3) < est_measure(s, st) {
                    match sp_expr_rest(s, st3, syms) {
                        ParseStep::Fail { err } => ParseStep::Fail { err },
                        ParseStep::Next { emitted: e3, st: st4 } => ParseStep::Next {
                            emitted: st.cur.text + e2 + e3,
                            st: st4,
                        },
                    }
                } else {
                    ParseStep::Fail { err: CompileError::ExpectedToken }
                },
            },
        }
    } else {
        ParseStep::Next { emitted: Seq::empty(), st }
    }
}

/// `expression ::= term {("+" | "-") term}`.
pub open spec fn sp_expression(s: Seq<char>, st: EState, syms: Set<Seq<char>>) -> ParseStep {
    match sp_term(s, st, syms) {
        ParseStep::Fail { err } => ParseStep::Fail { err },
        ParseStep::Next { emitted: e1, st: st2 } => match sp_expr_rest(s, st2, syms) {
            ParseStep::Fail { err } => ParseStep::Fail { err },
            ParseStep::Next { emitted: e2, st: st3 } => ParseStep::Next {
                emitted: e1 + e2,
                st: st3,
            },
        },
    }
}

/// The `(comparisonOp expression)+` tail of a comparison, run as zero or
/// more steps: each operator lexeme re-emitted verbatim before its right
/// operand's translation.
pub open spec fn sp_cmp_rest(s: Seq<char>, st: EState, syms: Set<Seq<char>>) -> ParseStep
    decreases est_measure(s, st),
{
    if is_cmp_op(st.cur.ttype) {
        match sp_advance(s, st) {
            Err(err) => ParseStep::Fail { err },
            Ok(st2) => match sp_expression(s, st2, syms) {
                ParseStep::Fail { err } => ParseStep::Fail { err },
                ParseStep::Next { emitted: e2, st: st3 } => if 0 <= est_measure(s, st3)
                    && est_measure(s, st3) < est_measure(s, st) {
                    match sp_cmp_rest(s, st3, syms) {
                        ParseStep::Fail { err } => ParseStep::Fail { err },
                        ParseStep::Next { emitted: e3, st: st4 } => ParseStep::Next {
                            emitted: st.cur.text + e2 + e3,
                            st: st4,
                        },
                    }
                } else {
                    ParseStep::Fail { err: CompileError::ExpectedToken }
                },
            },
        }
    } else {
        ParseStep::Next { emitted: Seq::empty(), st }
    }
}

/// `comparison ::= expression (comparisonOp expression)+` — at least one
/// operator is required; a bare expression fails.
pub open spec fn sp_comparison(s: Seq<char>, st: EState, syms: Set<Seq<char>>) -> ParseStep {
    match sp_expression(s, st, syms) {
        ParseStep::Fail { err } => ParseStep::Fail { err },
        ParseStep::Next { emitted: e1, st: st2 } => if !is_cmp_op(st2.cur.ttype) {
            ParseStep::Fail { err: CompileError::MissingComparisonOperator }
        } else {
            match sp_cmp_rest(s, st2, syms) {
                ParseStep::Fail { err } => ParseStep::Fail { err },
                ParseStep::Next { emitted: e2, st: st3 } => ParseStep::Next {
                    emitted: e1 + e2,
                    st: st3,
                },
            }
        },
    }
}

/// On a well-formed parser the expression-level measure agrees with the
/// parser's own termination measure.
proof fn lemma_est_measure_eq(p: Parser)
    requires
        p.wf(),
    ensures
        est_measure(p.src(), p.est()) == p.measure(),
{
    p.lexer.lemma_pos_in_bounds();
}

pub proof fn lemma_prefix_concat(a: Seq<char>, b: Seq<char>)
    ensures
        a.is_prefix_of(a + b),
{
    assert(a =~= (a + b).subrange(0, a.len() as int));
}

pub proof fn lemma_prefix_trans(a: Seq<char>, b: Seq<char>, c: Seq<char>)
    requires
        a.is_prefix_of(b),
        b.is_prefix_of(c),
    ensures
        a.is_prefix_of(c),
{
    assert(a =~= c.subrange(0, a.len() as int));
}

proof fn lemma_push_to_set(v: Seq<Seq<char>>, x: Seq<char>)
    ensures
        v.push(x).to_set() == v.to_set().insert(x),
{
    assert forall|y: Seq<char>| v.push(x).contains(y) implies (v.contains(y) || y == x) by {
        let i = choose|i: int| 0 <= i < v.push(x).len() && v.push(x)[i] == y;
        if i < v.len() {
            assert(v[i] == y);
        }
    }
    assert forall|y: Seq<char>| v.contains(y) implies v.push(x).contains(y) by {
        let i = choose|i: int| 0 <= i < v.len() && v[i] == y;
        assert(v.push(x)[i] == y);
    }
    assert(v.push(x)[v.len() as int] == x);
    assert(v.push(x).contains(x));
    assert(v.push(x).to_set() =~= v.to_set().insert(x));
}

proof fn lemma_name_set_push(v: Seq<String>, x: String)
    ensures
        name_set(v.push(x)) == name_set(v).insert(x@),
{
    assert(v.push(x).map_values(|s: String| s@) =~= v.map_values(|s: String| s@).push(x@));
    lemma_push_to_set(v.map_values(|s: String| s@), x@);
}

/// Whether a name stands in a table.
fn contains_name(v: &Vec<String>, name: &String) -> (r: bool)
    ensures
        r == name_set(v@).contains(name@),
{
    let ghost mapped = v@.map_values(|s: String| s@);
    let mut i: usize = 0;
    while i < v.len()
        invariant
            i <= v.len(),
            mapped == v@.map_values(|s: String| s@),
            forall|j: int| 0 <= j < i ==> mapped[j] != name@,
        decreases v.len() - i,
    {
        if v[i] == *name {
            proof {
                assert(mapped[i as int] == name@);
                assert(mapped.contains(name@));
            }
            return true;
        }
        i = i + 1;
    }
    proof {
        assert(forall|j: int| 0 <= j < mapped.len() ==> mapped[j] != name@);
        assert(!mapped.contains(name@));
    }
    false
}

/// The concatenation of three fragments, for building one emitted line.
fn concat3(a: &str, b: &str, c: &str) -> (r: String)
    ensures
        r@ == a@ + b@ + c@,
{
    let mut r = String::from_str(a);
    r.append(b);
    r.append(c);
    proof {
        assert(r@ =~= a@ + b@ + c@);
    }
    r
}

/// The concatenation of two fragments.
fn concat2(a: &str, b: &str) -> (r: String)
    ensures
        r@ == a@ + b@,
{
    let mut r = String::from_str(a);
    r.append(b);
    r
}

proof fn lemma_prefix_refl(a: Seq<char>)
    ensures
        a.is_prefix_of(a),
{
    assert(a =~= a.subrange(0, a.len() as int));
}

proof fn lemma_suffix_concat(a: Seq<char>, b: Seq<char>)
    ensures
        b.is_suffix_of(a + b),
{
    assert(b =~= (a + b).subrange(a.len() as int, (a + b).len() as int));
}

/// A suffix of the second part is a suffix of the whole.
pub proof fn lemma_suffix_extend(a: Seq<char>, b: Seq<char>, c: Seq<char>)
    requires
        a.is_suffix_of(c),
    ensures
        a.is_suffix_of(b + c),
{
    assert(a =~= (b + c).subrange((b + c).len() - a.len(), (b + c).len() as int));
}

/// A prefix survives appending one fragment.
proof fn lemma_prefix_emit(a: Seq<char>, b: Seq<char>, t: Seq<char>)
    requires
        a.is_prefix_of(b),
    ensures
        a.is_prefix_of(b + t),
{
    lemma_prefix_concat(b, t);
    lemma_prefix_trans(a, b, b + t);
}

/// A prefix survives appending one fragment and a line break.
proof fn lemma_prefix_emit_line(a: Seq<char>, b: Seq<char>, t: Seq<char>)
    requires
        a.is_prefix_of(b),
    ensures
        a.is_prefix_of(b + t + seq!['\n']),
{
    assert(a =~= (b + t + seq!['\n']).subrange(0, a.len() as int));
}

/// The parser state: the token pair, the tables, and the owned lexer and
/// emitter.
pub struct Parser {
    lexer: Lexer,
    emitter: Emitter,
    current_token: Token,
    peek_token: Token,
    symbols: Vec<String>,
    labels_declared: Vec<String>,
    labels_used: Vec<String>,
}

impl Parser {
    /// The token under consideration.
    pub closed spec fn cur(&self) -> Token {
        self.current_token
    }

    /// The one token of lookahead.
    pub closed spec fn peek_tok(&self) -> Token {
        self.peek_token
    }

    /// The set of variable names declared so far.
    pub closed spec fn syms(&self) -> Set<Seq<char>> {
        name_set(self.symbols@)
    }

    /// The set of label names declared so far.
    pub closed spec fn declared(&self) -> Set<Seq<char>> {
        name_set(self.labels_declared@)
    }

    /// The set of label names used as jump destinations so far.
    pub closed spec fn used(&self) -> Set<Seq<char>> {
        name_set(self.labels_used@)
    }

    /// The header buffer's text.
    pub closed spec fn header_text(&self) -> Seq<char> {
        self.emitter.header_text()
    }

    /// The code buffer's text.
    pub closed spec fn body_text(&self) -> Seq<char> {
        self.emitter.code_text()
    }

    /// The parser invariant: the lexer cursor is well formed.
    pub closed spec fn wf(&self) -> bool {
        self.lexer.wf()
    }

    /// The character buffer the parser's lexer reads, sentinel included.
    pub closed spec fn src(&self) -> Seq<char> {
        self.lexer.src()
    }

    /// The lexer's read position.
    pub closed spec fn pos(&self) -> int {
        self.lexer.pos()
    }

    /// The lexer step that the next token advance will take: pulling a token
    /// succeeds exactly when this is not a lexical failure, and the token it
    /// buffers is exactly the one this scan yields.
    pub closed spec fn next_scan(&self) -> LexStep {
        scan(self.lexer.src(), self.lexer.pos())
    }

    /// The expression-level view of the parser: its buffered pair and the
    /// lexer position, as the `sp_` spec functions read them.
    pub closed spec fn est(&self) -> EState {
        EState {
            cur: STok { text: self.current_token.text@, ttype: self.current_token.ttype },
            peek: STok { text: self.peek_token.text@, ttype: self.peek_token.ttype },
            pos: self.lexer.pos(),
        }
    }

    /// The termination measure of the recursive descent: unread characters
    /// plus the buffered tokens that are not `EOF`.
    pub closed spec fn measure(&self) -> nat {
        (self.lexer.src().len() - self.lexer.pos() + tok_weight(self.current_token.ttype)
            + tok_weight(self.peek_token.ttype)) as nat
    }

    /// Primes the current and lookahead tokens with the first two tokens of
    /// the stream: construction succeeds exactly when the first two scans of
    /// the source succeed, and then holds exactly those two tokens, with the
    /// lexer standing just past them.
    pub fn new(lexer: Lexer, emitter: Emitter) -> (r: Result<Parser, CompileError>)
        requires
            lexer.wf(),
        ensures
            (match scan(lexer.src(), lexer.pos()) {
                LexStep::Fail { err } => r == Result::<Parser, CompileError>::Err(err),
                LexStep::Tok { text: t1, ttype: y1, next: n1 } => (match scan(lexer.src(), n1) {
                    LexStep::Fail { err } => r == Result::<Parser, CompileError>::Err(err),
                    LexStep::Tok { text: t2, ttype: y2, next: n2 } => r matches Ok(p) && {
                        &&& p.cur().text@ == t1
                        &&& p.cur().ttype == y1
                        &&& p.peek_tok().text@ == t2
                        &&& p.peek_tok().ttype == y2
                        &&& p.src() == lexer.src()
                        &&& p.pos() == n2
                    },
                }),
            }),
            (match r {
                Ok(p) => {
                    &&& p.wf()
                    &&& p.syms() == Set::<Seq<char>>::empty()
                    &&& p.declared() == Set::<Seq<char>>::empty()
                    &&& p.used() == Set::<Seq<char>>::empty()
                    &&& p.header_text() == emitter.header_text()
                    &&& p.body_text() == emitter.code_text()
                },
                Err(e) => is_lex_error(e),
            }),
    {
        let mut lexer = lexer;
        let t1 = match lexer.get_token() {
            Ok(t) => t,
            Err(e) => return Err(e),
        };
        let t2 = match lexer.get_token() {
            Ok(t) => t,
            Err(e) => return Err(e),
        };
        let p = Parser {
            lexer,
            emitter,
            current_token: t1,
            peek_token: t2,
            symbols: Vec::new(),
            labels_declared: Vec::new(),
            labels_used: Vec::new(),
        };
        proof {
            assert(Seq::<String>::empty().map_values(|s: String| s@) =~= Seq::<Seq<char>>::empty());
            assert(name_set(Seq::<String>::empty()) =~= Set::<Seq<char>>::empty());
        }
        Ok(p)
    }

    /// Whether the current token has the given category.
    fn check_token(&self, ttype: TokenType) -> (r: bool)
        ensures
            r == (self.cur().ttype == ttype),
    {
        self.current_token.ttype == ttype
    }

    /// The current token's lexeme.
    fn get_current_token_text(&self) -> (r: String)
        ensures
            r@ == self.cur().text@,
    {
        self.current_token.text.clone()
    }

    /// The current token's category.
    fn get_current_token_type(&self) -> (r: TokenType)
        ensures
            r == self.cur().ttype,
    {
        self.current_token.ttype
    }

    /// Advances the token pair: the lookahead becomes current, the lexer
    /// supplies a fresh lookahead.
    fn next_token(&mut self) -> (r: Result<(), CompileError>)
        requires
            old(self).wf(),
        ensures
            final(self).wf(),
            final(self).src() == old(self).src(),
            final(self).syms() == old(self).syms(),
            final(self).declared() == old(self).declared(),
            final(self).used() == old(self).used(),
            final(self).header_text() == old(self).header_text(),
            final(self).body_text() == old(self).body_text(),
            (match old(self).next_scan() {
                LexStep::Tok { text, ttype, next } => {
                    &&& r is Ok
                    &&& final(self).peek_tok().text@ == text
                    &&& final(self).peek_tok().ttype == ttype
                    &&& final(self).pos() == next
                },
                LexStep::Fail { err } => r == Result::<(), CompileError>::Err(err),
            }),
            (match r {
                Ok(_) => {
                    &&& final(self).cur() == old(self).peek_tok()
                    &&& old(self).pos() <= final(self).pos() <= old(self).src().len()
                    &&& (final(self).peek_tok().ttype != TokenType::EOF ==> old(self).pos()
                        < final(self).pos())
                    &&& final(self).measure() + tok_weight(old(self).cur().ttype) <= old(
                        self,
                    ).measure()
                },
                Err(e) => is_lex_error(e),
            }),
    {
        let t = match self.lexer.get_token() {
            Ok(t) => t,
            Err(e) => {
                proof {
                    crate::lexer::lemma_scan_fail_is_lex(old(self).lexer.src(), old(self).lexer.pos());
                }
                return Err(e);
            },
        };
        core::mem::swap(&mut self.current_token, &mut self.peek_token);
        self.peek_token = t;
        Ok(())
    }

    /// Demands the given category of the current token and advances past it.
    fn try_match(&mut self, ttype: TokenType) -> (r: Result<(), CompileError>)
        requires
            old(self).wf(),
        ensures
            final(self).wf(),
            final(self).src() == old(self).src(),
            final(self).syms() == old(self).syms(),
            final(self).declared() == old(self).declared(),
            final(self).used() == old(self).used(),
            final(self).header_text() == old(self).header_text(),
            final(self).body_text() == old(self).body_text(),
            old(self).cur().ttype != ttype ==> r == Result::<(), CompileError>::Err(
                CompileError::ExpectedToken,
            ) && *final(self) == *old(self),
            old(self).cur().ttype == ttype ==> (match old(self).next_scan() {
                LexStep::Tok { text, ttype: ty, next } => {
                    &&& r is Ok
                    &&& final(self).peek_tok().text@ == text
                    &&& final(self).peek_tok().ttype == ty
                    &&& final(self).pos() == next
                    &&& final(self).src() == old(self).src()
                },
                LexStep::Fail { err } => r == Result::<(), CompileError>::Err(err),
            }),
            (match r {
                Ok(_) => {
                    &&& old(self).cur().ttype == ttype
                    &&& final(self).cur() == old(self).peek_tok()
                    &&& old(self).pos() <= final(self).pos() <= old(self).src().len()
                    &&& (final(self).peek_tok().ttype != TokenType::EOF ==> old(self).pos()
                        < final(self).pos())
                    &&& final(self).measure() + tok_weight(ttype) <= old(self).measure()
                },
                Err(e) => e == CompileError::ExpectedToken || is_lex_error(e),
            }),
    {
        if !self.check_token(ttype) {
            return Err(CompileError::ExpectedToken);
        }
        self.next_token()
    }

    /// Declares the current token's lexeme as a variable if it is new: it
    /// enters the symbol table and its declaration line enters the header.
    fn declare_current_symbol(&mut self)
        requires
            old(self).wf(),
        ensures
            final(self).wf(),
            final(self).cur() == old(self).cur(),
            final(self).peek_tok() == old(self).peek_tok(),
            final(self).src() == old(self).src(),
            final(self).pos() == old(self).pos(),
            final(self).measure() == old(self).measure(),
            final(self).declared() == old(self).declared(),
            final(self).used() == old(self).used(),
            final(self).body_text() == old(self).body_text(),
            final(self).syms() == old(self).syms().insert(old(self).cur().text@),
            old(self).syms().contains(old(self).cur().text@) ==> final(self).header_text() == old(
                self,
            ).header_text(),
            !old(self).syms().contains(old(self).cur().text@) ==> final(self).header_text() == old(
                self,
            ).header_text() + decl_line(old(self).cur().text@),
    {
        let text = self.get_current_token_text();
        if !contains_name(&self.symbols, &text) {
            self.symbols.push(text.clone());
            let line = concat3("float ", text.as_str(), ";");
            self.emitter.header_line(line.as_str());
            proof {
                lemma_name_set_push(old(self).symbols@, text);
                assert(self.emitter.header_text() =~= old(self).emitter.header_text() + decl_line(
                    old(self).cur().text@,
                ));
            }
        } else {
            proof {
                assert(old(self).syms().insert(old(self).cur().text@) =~= old(self).syms());
            }
        }
    }

    /// `primary ::= NUMBER | IDENT` — emits the lexeme verbatim.  An
    /// identifier must already stand in the symbol table: there is no
    /// hoisting of variable declarations.
    fn primary(&mut self) -> (r: Result<(), CompileError>)
        requires
            old(self).wf(),
        ensures
            final(self).wf(),
            final(self).src() == old(self).src(),
            final(self).syms() == old(self).syms(),
            final(self).declared() == old(self).declared(),
            final(self).used() == old(self).used(),
            final(self).header_text() == old(self).header_text(),
            old(self).body_text().is_prefix_of(final(self).body_text()),
            old(self).cur().ttype == TokenType::IDENT && !old(self).syms().contains(
                old(self).cur().text@,
            ) ==> r == Result::<(), CompileError>::Err(CompileError::UndeclaredVariable)
                && *final(self) == *old(self),
            old(self).cur().ttype != TokenType::NUMBER && old(self).cur().ttype != TokenType::IDENT
                ==> r == Result::<(), CompileError>::Err(CompileError::ExpectedToken)
                && *final(self) == *old(self),
            bare_operand(old(self).cur(), old(self).syms()) ==> (match old(self).next_scan() {
                LexStep::Tok { text, ttype, next } => {
                    &&& r is Ok
                    &&& final(self).cur() == old(self).peek_tok()
                    &&& final(self).peek_tok().text@ == text
                    &&& final(self).peek_tok().ttype == ttype
                    &&& final(self).pos() == next
                    &&& final(self).src() == old(self).src()
                },
                LexStep::Fail { err } => r == Result::<(), CompileError>::Err(err),
            }),
            (match sp_primary(old(self).src(), old(self).est(), old(self).syms()) {
                ParseStep::Next { emitted, st } => {
                    &&& r is Ok
                    &&& final(self).est() == st
                    &&& final(self).body_text() == old(self).body_text() + emitted
                },
                ParseStep::Fail { err } => r == Result::<(), CompileError>::Err(err),
            }),
            (match r {
                Ok(_) => {
                    &&& old(self).cur().ttype == TokenType::NUMBER || (old(self).cur().ttype
                        == TokenType::IDENT && old(self).syms().contains(old(self).cur().text@))
                    &&& final(self).body_text() == old(self).body_text() + old(self).cur().text@
                    &&& final(self).measure() < old(self).measure()
                },
                Err(e) => is_expression_error(e),
            }),
    {
        let ttype = self.get_current_token_type();
        if ttype == TokenType::NUMBER {
            let text = self.get_current_token_text();
            self.emitter.emit(text.as_str());
            proof {
                lemma_prefix_concat(old(self).body_text(), old(self).cur().text@);
            }
            match self.next_token() {
                Err(e) => return Err(e),
                Ok(_) => {},
            }
            Ok(())
        } else if ttype == TokenType::IDENT {
            let text = self.get_current_token_text();
            if !contains_name(&self.symbols, &text) {
                return Err(CompileError::UndeclaredVariable);
            }
            self.emitter.emit(text.as_str());
            proof {
                lemma_prefix_concat(old(self).body_text(), old(self).cur().text@);
            }
            match self.next_token() {
                Err(e) => return Err(e),
                Ok(_) => {},
            }
            Ok(())
        } else {
            Err(CompileError::ExpectedToken)
        }
    }

    /// `unary ::= ["+" | "-"] primary` — an optional sign, re-emitted as a
    /// prefix.
    fn unary(&mut self) -> (r: Result<(), CompileError>)
        requires
            old(self).wf(),
        ensures
            final(self).wf(),
            final(self).src() == old(self).src(),
            final(self).syms() == old(self).syms(),
            final(self).declared() == old(self).declared(),
            final(self).used() == old(self).used(),
            final(self).header_text() == old(self).header_text(),
            old(self).body_text().is_prefix_of(final(self).body_text()),
            old(self).cur().ttype == TokenType::IDENT && !old(self).syms().contains(
                old(self).cur().text@,
            ) ==> r == Result::<(), CompileError>::Err(CompileError::UndeclaredVariable)
                && *final(self) == *old(self),
            old(self).cur().ttype != TokenType::PLUS && old(self).cur().ttype != TokenType::MINUS
                && old(self).cur().ttype != TokenType::NUMBER && old(self).cur().ttype
                != TokenType::IDENT ==> r == Result::<(), CompileError>::Err(
                CompileError::ExpectedToken,
            ) && *final(self) == *old(self),
            bare_operand(old(self).cur(), old(self).syms()) ==> (match old(self).next_scan() {
                LexStep::Tok { text, ttype, next } => {
                    &&& r is Ok
                    &&& final(self).cur() == old(self).peek_tok()
                    &&& final(self).peek_tok().text@ == text
                    &&& final(self).peek_tok().ttype == ttype
                    &&& final(self).pos() == next
                    &&& final(self).src() == old(self).src()
                },
                LexStep::Fail { err } => r == Result::<(), CompileError>::Err(err),
            }),
            (match sp_unary(old(self).src(), old(self).est(), old(self).syms()) {
                ParseStep::Next { emitted, st } => {
                    &&& r is Ok
                    &&& final(self).est() == st
                    &&& final(self).body_text() == old(self).body_text() + emitted
                },
                ParseStep::Fail { err } => r == Result::<(), CompileError>::Err(err),
            }),
            (match r {
                Ok(_) => final(self).measure() < old(self).measure(),
                Err(e) => is_expression_error(e),
            }),
    {
        if self.check_token(TokenType::PLUS) || self.check_token(TokenType::MINUS) {
            let text = self.get_current_token_text();
            self.emitter.emit(text.as_str());
            proof {
                lemma_prefix_concat(old(self).body_text(), old(self).cur().text@);
            }
            match self.next_token() {
                Err(e) => return Err(e),
                Ok(_) => {},
            }
            let ghost mid = *self;
            match self.primary() {
                Err(e) => {
                    proof {
                        lemma_prefix_trans(
                            old(self).body_text(),
                            mid.body_text(),
                            self.body_text(),
                        );
                    }
                    return Err(e);
                },
                Ok(_) => {},
            }
            proof {
                lemma_prefix_trans(old(self).body_text(), mid.body_text(), self.body_text());
            }
            Ok(())
        } else {
            self.primary()
        }
    }

    /// `term ::= unary {("*" | "/") unary}` — a left-associative chain, each
    /// matched operator re-emitted verbatim between its operands.
    fn term(&mut self) -> (r: Result<(), CompileError>)
        requires
            old(self).wf(),
        ensures
            final(self).wf(),
            final(self).src() == old(self).src(),
            final(self).syms() == old(self).syms(),
            final(self).declared() == old(self).declared(),
            final(self).used() == old(self).used(),
            final(self).header_text() == old(self).header_text(),
            old(self).body_text().is_prefix_of(final(self).body_text()),
            old(self).cur().ttype == TokenType::IDENT && !old(self).syms().contains(
                old(self).cur().text@,
            ) ==> r == Result::<(), CompileError>::Err(CompileError::UndeclaredVariable)
                && *final(self) == *old(self),
            old(self).cur().ttype != TokenType::PLUS && old(self).cur().ttype != TokenType::MINUS
                && old(self).cur().ttype != TokenType::NUMBER && old(self).cur().ttype
                != TokenType::IDENT ==> r == Result::<(), CompileError>::Err(
                CompileError::ExpectedToken,
            ) && *final(self) == *old(self),
            (bare_operand(old(self).cur(), old(self).syms()) && old(self).peek_tok().ttype
                != TokenType::ASTERISK && old(self).peek_tok().ttype != TokenType::SLASH) ==> (match old(self).next_scan() {
                LexStep::Tok { text, ttype, next } => {
                    &&& r is Ok
                    &&& final(self).cur() == old(self).peek_tok()
                    &&& final(self).peek_tok().text@ == text
                    &&& final(self).peek_tok().ttype == ttype
                    &&& final(self).pos() == next
                    &&& final(self).src() == old(self).src()
                },
                LexStep::Fail { err } => r == Result::<(), CompileError>::Err(err),
            }),
            (match sp_term(old(self).src(), old(self).est(), old(self).syms()) {
                ParseStep::Next { emitted, st } => {
                    &&& r is Ok
                    &&& final(self).est() == st
                    &&& final(self).body_text() == old(self).body_text() + emitted
                },
                ParseStep::Fail { err } => r == Result::<(), CompileError>::Err(err),
            }),
            (match r {
                Ok(_) => final(self).measure() < old(self).measure(),
                Err(e) => is_expression_error(e),
            }),
    {
        match self.unary() {
            Err(e) => return Err(e),
            Ok(_) => {},
        }
        let ghost acc0 = (match sp_unary(old(self).src(), old(self).est(), old(self).syms()) {
            ParseStep::Next { emitted, .. } => emitted,
            ParseStep::Fail { .. } => Seq::<char>::empty(),
        });
        let ghost mut acc: Seq<char> = acc0;
        while self.check_token(TokenType::ASTERISK) || self.check_token(TokenType::SLASH)
            invariant
                self.wf(),
                self.src() == old(self).src(),
                self.syms() == old(self).syms(),
                self.declared() == old(self).declared(),
                self.used() == old(self).used(),
                self.header_text() == old(self).header_text(),
                self.src() == old(self).src(),
                old(self).body_text().is_prefix_of(self.body_text()),
                self.measure() < old(self).measure(),
                old(self).cur().ttype == TokenType::IDENT && !old(self).syms().contains(
                    old(self).cur().text@,
                ) ==> false,
                old(self).cur().ttype != TokenType::PLUS && old(self).cur().ttype
                    != TokenType::MINUS && old(self).cur().ttype != TokenType::NUMBER && old(
                    self,
                ).cur().ttype != TokenType::IDENT ==> false,
                (bare_operand(old(self).cur(), old(self).syms()) && old(self).peek_tok().ttype
                    != TokenType::ASTERISK && old(self).peek_tok().ttype != TokenType::SLASH) ==> (
                match scan(old(self).src(), old(self).pos()) {
                    LexStep::Tok { text, ttype, next } => self.cur() == old(self).peek_tok()
                        && self.peek_tok().text@ == text && self.peek_tok().ttype == ttype
                        && self.pos() == next,
                    LexStep::Fail { .. } => false,
                }),
                self.body_text() == old(self).body_text() + acc,
                (match sp_term_rest(old(self).src(), self.est(), old(self).syms()) {
                    ParseStep::Next { emitted, st } => sp_term(
                        old(self).src(),
                        old(self).est(),
                        old(self).syms(),
                    ) == (ParseStep::Next { emitted: acc + emitted, st }),
                    ParseStep::Fail { err } => sp_term(
                        old(self).src(),
                        old(self).est(),
                        old(self).syms(),
                    ) == (ParseStep::Fail { err }),
                }),
            decreases self.measure(),
        {
            let ghost pre = *self;
            let ghost accp = acc;
            let text = self.get_current_token_text();
            self.emitter.emit(text.as_str());
            proof {
                lemma_prefix_concat(pre.body_text(), pre.cur().text@);
                lemma_prefix_trans(old(self).body_text(), pre.body_text(), self.body_text());
            }
            match self.next_token() {
                Err(e) => return Err(e),
                Ok(_) => {},
            }
            let ghost mid = *self;
            proof {
                assert(sp_advance(old(self).src(), pre.est()) == Ok::<EState, CompileError>(
                    mid.est(),
                ));
            }
            match self.unary() {
                Err(e) => {
                    proof {
                        lemma_prefix_trans(
                            old(self).body_text(),
                            mid.body_text(),
                            self.body_text(),
                        );
                    }
                    return Err(e);
                },
                Ok(_) => {},
            }
            proof {
                lemma_prefix_trans(old(self).body_text(), mid.body_text(), self.body_text());
                let s0 = old(self).src();
                let sy = old(self).syms();
                let e2 = (match sp_unary(s0, mid.est(), sy) {
                    ParseStep::Next { emitted, .. } => emitted,
                    ParseStep::Fail { .. } => Seq::<char>::empty(),
                });
                acc = accp + pre.cur().text@ + e2;
                assert(self.body_text() =~= old(self).body_text() + acc);
                lemma_est_measure_eq(*self);
                lemma_est_measure_eq(pre);
                match sp_term_rest(s0, self.est(), sy) {
                    ParseStep::Next { emitted: e3, st } => {
                        assert(accp + (pre.cur().text@ + e2 + e3) =~= acc + e3);
                    },
                    ParseStep::Fail { .. } => {},
                }
            }
        }
        proof {
            match sp_term_rest(old(self).src(), self.est(), old(self).syms()) {
                ParseStep::Next { emitted, st } => {
                    assert(old(self).body_text() + (acc + emitted) =~= old(self).body_text()
                        + acc);
                },
                ParseStep::Fail { .. } => {},
            }
        }
        Ok(())
    }

    /// `expression ::= term {("+" | "-") term}` — a left-associative chain,
    /// each matched operator re-emitted verbatim between its operands.
    fn expression(&mut self) -> (r: Result<(), CompileError>)
        requires
            old(self).wf(),
        ensures
            final(self).wf(),
            final(self).src() == old(self).src(),
            final(self).syms() == old(self).syms(),
            final(self).declared() == old(self).declared(),
            final(self).used() == old(self).used(),
            final(self).header_text() == old(self).header_text(),
            old(self).body_text().is_prefix_of(final(self).body_text()),
            old(self).cur().ttype == TokenType::IDENT && !old(self).syms().contains(
                old(self).cur().text@,
            ) ==> r == Result::<(), CompileError>::Err(CompileError::UndeclaredVariable)
                && *final(self) == *old(self),
            old(self).cur().ttype != TokenType::PLUS && old(self).cur().ttype != TokenType::MINUS
                && old(self).cur().ttype != TokenType::NUMBER && old(self).cur().ttype
                != TokenType::IDENT ==> r == Result::<(), CompileError>::Err(
                CompileError::ExpectedToken,
            ) && *final(self) == *old(self),
            (bare_operand(old(self).cur(), old(self).syms()) && !continues_expression(
                old(self).peek_tok().ttype,
            )) ==> (match old(self).next_scan() {
                LexStep::Tok { text, ttype, next } => {
                    &&& r is Ok
                    &&& final(self).cur() == old(self).peek_tok()
                    &&& final(self).peek_tok().text@ == text
                    &&& final(self).peek_tok().ttype == ttype
                    &&& final(self).pos() == next
                    &&& final(self).src() == old(self).src()
                },
                LexStep::Fail { err } => r == Result::<(), CompileError>::Err(err),
            }),
            (match sp_expression(old(self).src(), old(self).est(), old(self).syms()) {
                ParseStep::Next { emitted, st } => {
                    &&& r is Ok
                    &&& final(self).est() == st
                    &&& final(self).body_text() == old(self).body_text() + emitted
                },
                ParseStep::Fail { err } => r == Result::<(), CompileError>::Err(err),
            }),
            (match r {
                Ok(_) => final(self).measure() < old(self).measure(),
                Err(e) => is_expression_error(e),
            }),
    {
        match self.term() {
            Err(e) => return Err(e),
            Ok(_) => {},
        }
        let ghost acc0 = (match sp_term(old(self).src(), old(self).est(), old(self).syms()) {
            ParseStep::Next { emitted, .. } => emitted,
            ParseStep::Fail { .. } => Seq::<char>::empty(),
        });
        let ghost mut acc: Seq<char> = acc0;
        while self.check_token(TokenType::PLUS) || self.check_token(TokenType::MINUS)
            invariant
                self.wf(),
                self.src() == old(self).src(),
                self.syms() == old(self).syms(),
                self.declared() == old(self).declared(),
                self.used() == old(self).used(),
                self.header_text() == old(self).header_text(),
                old(self).body_text().is_prefix_of(self.body_text()),
                self.measure() < old(self).measure(),
                old(self).cur().ttype == TokenType::IDENT && !old(self).syms().contains(
                    old(self).cur().text@,
                ) ==> false,
                old(self).cur().ttype != TokenType::PLUS && old(self).cur().ttype
                    != TokenType::MINUS && old(self).cur().ttype != TokenType::NUMBER && old(
                    self,
                ).cur().ttype != TokenType::IDENT ==> false,
                (bare_operand(old(self).cur(), old(self).syms()) && !continues_expression(
                    old(self).peek_tok().ttype,
                )) ==> (match scan(
                    old(self).src(),
                    old(self).pos(),
                ) {
                    LexStep::Tok { text, ttype, next } => self.cur() == old(self).peek_tok()
                        && self.peek_tok().text@ == text && self.peek_tok().ttype == ttype
                        && self.pos() == next,
                    LexStep::Fail { .. } => false,
                }),
                self.body_text() == old(self).body_text() + acc,
                (match sp_expr_rest(old(self).src(), self.est(), old(self).syms()) {
                    ParseStep::Next { emitted, st } => sp_expression(
                        old(self).src(),
                        old(self).est(),
                        old(self).syms(),
                    ) == (ParseStep::Next { emitted: acc + emitted, st }),
                    ParseStep::Fail { err } => sp_expression(
                        old(self).src(),
                        old(self).est(),
                        old(self).syms(),
                    ) == (ParseStep::Fail { err }),
                }),
            decreases self.measure(),
        {
            let ghost pre = *self;
            let ghost accp = acc;
            let text = self.get_current_token_text();
            self.emitter.emit(text.as_str());
            proof {
                lemma_prefix_concat(pre.body_text(), pre.cur().text@);
                lemma_prefix_trans(old(self).body_text(), pre.body_text(), self.body_text());
            }
            match self.next_token() {
                Err(e) => return Err(e),
                Ok(_) => {},
            }
            let ghost mid = *self;
            proof {
                assert(sp_advance(old(self).src(), pre.est()) == Ok::<EState, CompileError>(
                    mid.est(),
                ));
            }
            match self.term() {
                Err(e) => {
                    proof {
                        lemma_prefix_trans(
                            old(self).body_text(),
                            mid.body_text(),
                            self.body_text(),
                        );
                    }
                    return Err(e);
                },
                Ok(_) => {},
            }
            proof {
                lemma_prefix_trans(old(self).body_text(), mid.body_text(), self.body_text());
                let s0 = old(self).src();
                let sy = old(self).syms();
                let e2 = (match sp_term(s0, mid.est(), sy) {
                    ParseStep::Next { emitted, .. } => emitted,
                    ParseStep::Fail { .. } => Seq::<char>::empty(),
                });
                acc = accp + pre.cur().text@ + e2;
                assert(self.body_text() =~= old(self).body_text() + acc);
                lemma_est_measure_eq(*self);
                lemma_est_measure_eq(pre);
                match sp_expr_rest(s0, self.est(), sy) {
                    ParseStep::Next { emitted: e3, st } => {
                        assert(accp + (pre.cur().text@ + e2 + e3) =~= acc + e3);
                    },
                    ParseStep::Fail { .. } => {},
                }
            }
        }
        proof {
            match sp_expr_rest(old(self).src(), self.est(), old(self).syms()) {
                ParseStep::Next { emitted, st } => {
                    assert(old(self).body_text() + (acc + emitted) =~= old(self).body_text()
                        + acc);
                },
                ParseStep::Fail { .. } => {},
            }
        }
        Ok(())
    }

    /// Whether the current token is one of the six comparison operators.
    fn is_comparison_operator(&self) -> (r: bool)
        ensures
            r == is_cmp_op(self.cur().ttype),
    {
        match self.current_token.ttype {
            TokenType::GT => true,
            TokenType::GTEQ => true,
            TokenType::LT => true,
            TokenType::LTEQ => true,
            TokenType::EQEQ => true,
            TokenType::NOTEQ => true,
            _ => false,
        }
    }

    /// Re-emits the comparison operator under the cursor and parses the
    /// expression that must follow it.
    fn handle_comparision(&mut self) -> (r: Result<(), CompileError>)
        requires
            old(self).wf(),
            is_cmp_op(old(self).cur().ttype),
        ensures
            final(self).wf(),
            final(self).src() == old(self).src(),
            final(self).syms() == old(self).syms(),
            final(self).declared() == old(self).declared(),
            final(self).used() == old(self).used(),
            final(self).header_text() == old(self).header_text(),
            old(self).body_text().is_prefix_of(final(self).body_text()),
            (match sp_advance(old(self).src(), old(self).est()) {
                Err(err) => r == Result::<(), CompileError>::Err(err),
                Ok(st2) => (match sp_expression(old(self).src(), st2, old(self).syms()) {
                    ParseStep::Fail { err } => r == Result::<(), CompileError>::Err(err),
                    ParseStep::Next { emitted, st } => {
                        &&& r is Ok
                        &&& final(self).est() == st
                        &&& final(self).body_text() == old(self).body_text() + old(
                            self,
                        ).cur().text@ + emitted
                    },
                }),
            }),
            (match r {
                Ok(_) => final(self).measure() < old(self).measure(),
                Err(e) => is_expression_error(e),
            }),
    {
        let text = self.get_current_token_text();
        self.emitter.emit(text.as_str());
        proof {
            lemma_prefix_concat(old(self).body_text(), old(self).cur().text@);
        }
        match self.next_token() {
            Err(e) => return Err(e),
            Ok(_) => {},
        }
        let ghost mid = *self;
        match self.expression() {
            Err(e) => {
                proof {
                    lemma_prefix_trans(old(self).body_text(), mid.body_text(), self.body_text());
                }
                return Err(e);
            },
            Ok(_) => {},
        }
        proof {
            lemma_prefix_trans(old(self).body_text(), mid.body_text(), self.body_text());
        }
        Ok(())
    }

    /// `comparison ::= expression (comparisonOp expression)+` — at least one
    /// comparison operator is required; a bare expression is a failure.
    #[verifier::rlimit(80)]
    fn comparison(&mut self) -> (r: Result<(), CompileError>)
        requires
            old(self).wf(),
        ensures
            final(self).wf(),
            final(self).src() == old(self).src(),
            final(self).syms() == old(self).syms(),
            final(self).declared() == old(self).declared(),
            final(self).used() == old(self).used(),
            final(self).header_text() == old(self).header_text(),
            old(self).body_text().is_prefix_of(final(self).body_text()),
            old(self).cur().ttype == TokenType::IDENT && !old(self).syms().contains(
                old(self).cur().text@,
            ) ==> r == Result::<(), CompileError>::Err(CompileError::UndeclaredVariable)
                && *final(self) == *old(self),
            old(self).cur().ttype != TokenType::PLUS && old(self).cur().ttype != TokenType::MINUS
                && old(self).cur().ttype != TokenType::NUMBER && old(self).cur().ttype
                != TokenType::IDENT ==> r == Result::<(), CompileError>::Err(
                CompileError::ExpectedToken,
            ) && *final(self) == *old(self),
            (bare_operand(old(self).cur(), old(self).syms()) && !continues_expression(
                old(self).peek_tok().ttype,
            ) && !is_cmp_op(old(self).peek_tok().ttype)) ==> (match old(self).next_scan() {
                LexStep::Fail { err } => r == Result::<(), CompileError>::Err(err),
                LexStep::Tok { .. } => r == Result::<(), CompileError>::Err(
                    CompileError::MissingComparisonOperator,
                ),
            }),
            (match sp_comparison(old(self).src(), old(self).est(), old(self).syms()) {
                ParseStep::Next { emitted, st } => {
                    &&& r is Ok
                    &&& final(self).est() == st
                    &&& final(self).body_text() == old(self).body_text() + emitted
                },
                ParseStep::Fail { err } => r == Result::<(), CompileError>::Err(err),
            }),
            (match r {
                Ok(_) => final(self).measure() < old(self).measure(),
                Err(e) => e == CompileError::MissingComparisonOperator || is_expression_error(e),
            }),
    {
        match self.expression() {
            Err(e) => return Err(e),
            Ok(_) => {},
        }
        let ghost e1 = (match sp_expression(old(self).src(), old(self).est(), old(self).syms()) {
            ParseStep::Next { emitted, .. } => emitted,
            ParseStep::Fail { .. } => Seq::<char>::empty(),
        });
        let ghost mut acc: Seq<char> = e1;
        if self.is_comparison_operator() {
            let ghost mid = *self;
            match self.handle_comparision() {
                Err(e) => {
                    proof {
                        lemma_prefix_trans(
                            old(self).body_text(),
                            mid.body_text(),
                            self.body_text(),
                        );
                    }
                    return Err(e);
                },
                Ok(_) => {},
            }
            proof {
                lemma_prefix_trans(old(self).body_text(), mid.body_text(), self.body_text());
                let s0 = old(self).src();
                let sy = old(self).syms();
                let e2 = (match sp_advance(s0, mid.est()) {
                    Err(_) => Seq::<char>::empty(),
                    Ok(st2) => (match sp_expression(s0, st2, sy) {
                        ParseStep::Next { emitted, .. } => emitted,
                        ParseStep::Fail { .. } => Seq::<char>::empty(),
                    }),
                });
                acc = e1 + mid.cur().text@ + e2;
                assert(self.body_text() =~= old(self).body_text() + acc);
                lemma_est_measure_eq(*self);
                lemma_est_measure_eq(mid);
                match sp_cmp_rest(s0, self.est(), sy) {
                    ParseStep::Next { emitted: e3, st } => {
                        assert(e1 + (mid.cur().text@ + e2 + e3) =~= acc + e3);
                    },
                    ParseStep::Fail { .. } => {},
                }
            }
        } else {
            return Err(CompileError::MissingComparisonOperator);
        }
        while self.is_comparison_operator()
            invariant
                self.wf(),
                self.src() == old(self).src(),
                self.syms() == old(self).syms(),
                self.declared() == old(self).declared(),
                self.used() == old(self).used(),
                self.header_text() == old(self).header_text(),
                old(self).body_text().is_prefix_of(self.body_text()),
                self.measure() < old(self).measure(),
                old(self).cur().ttype == TokenType::IDENT && !old(self).syms().contains(
                    old(self).cur().text@,
                ) ==> false,
                old(self).cur().ttype != TokenType::PLUS && old(self).cur().ttype
                    != TokenType::MINUS && old(self).cur().ttype != TokenType::NUMBER && old(
                    self,
                ).cur().ttype != TokenType::IDENT ==> false,
                (bare_operand(old(self).cur(), old(self).syms()) && !continues_expression(
                    old(self).peek_tok().ttype,
                ) && !is_cmp_op(old(self).peek_tok().ttype)) ==> false,
                self.body_text() == old(self).body_text() + acc,
                (match sp_cmp_rest(old(self).src(), self.est(), old(self).syms()) {
                    ParseStep::Next { emitted, st } => sp_comparison(
                        old(self).src(),
                        old(self).est(),
                        old(self).syms(),
                    ) == (ParseStep::Next { emitted: acc + emitted, st }),
                    ParseStep::Fail { err } => sp_comparison(
                        old(self).src(),
                        old(self).est(),
                        old(self).syms(),
                    ) == (ParseStep::Fail { err }),
                }),
            decreases self.measure(),
        {
            let ghost mid = *self;
            let ghost accp = acc;
            match self.handle_comparision() {
                Err(e) => {
                    proof {
                        lemma_prefix_trans(
                            old(self).body_text(),
                            mid.body_text(),
                            self.body_text(),
                        );
                    }
                    return Err(e);
                },
                Ok(_) => {},
            }
            proof {
                lemma_prefix_trans(old(self).body_text(), mid.body_text(), self.body_text());
                let s0 = old(self).src();
                let sy = old(self).syms();
                let e2 = (match sp_advance(s0, mid.est()) {
                    Err(_) => Seq::<char>::empty(),
                    Ok(st2) => (match sp_expression(s0, st2, sy) {
                        ParseStep::Next { emitted, .. } => emitted,
                        ParseStep::Fail { .. } => Seq::<char>::empty(),
                    }),
                });
                acc = accp + mid.cur().text@ + e2;
                assert(self.body_text() =~= old(self).body_text() + acc);
                lemma_est_measure_eq(*self);
                lemma_est_measure_eq(mid);
                match sp_cmp_rest(s0, self.est(), sy) {
                    ParseStep::Next { emitted: e3, st } => {
                        assert(accp + (mid.cur().text@ + e2 + e3) =~= acc + e3);
                    },
                    ParseStep::Fail { .. } => {},
                }
            }
        }
        proof {
            match sp_cmp_rest(old(self).src(), self.est(), old(self).syms()) {
                ParseStep::Next { emitted, st } => {
                    assert(old(self).body_text() + (acc + emitted) =~= old(self).body_text()
                        + acc);
                },
                ParseStep::Fail { .. } => {},
            }
        }
        Ok(())
    }

    /// The statement terminator: exactly one mandatory newline, then any run
    /// of further blank newlines.  On a newline it succeeds exactly when the
    /// walk past the blank lines meets no lexical failure, and stops at the
    /// token that walk finds.
    fn new_line(&mut self) -> (r: Result<(), CompileError>)
        requires
            old(self).wf(),
        ensures
            final(self).wf(),
            final(self).src() == old(self).src(),
            final(self).syms() == old(self).syms(),
            final(self).declared() == old(self).declared(),
            final(self).used() == old(self).used(),
            final(self).header_text() == old(self).header_text(),
            final(self).body_text() == old(self).body_text(),
            old(self).cur().ttype != TokenType::NEWLINE ==> r == Result::<(), CompileError>::Err(
                CompileError::ExpectedToken,
            ) && *final(self) == *old(self),
            old(self).cur().ttype == TokenType::NEWLINE ==> (match first_past_newlines(
                old(self).src(),
                old(self).cur().ttype,
                old(self).peek_tok().ttype,
                old(self).pos(),
            ) {
                Ok(t) => r is Ok && final(self).cur().ttype == t,
                Err(err) => r == Result::<(), CompileError>::Err(err),
            }),
            (match r {
                Ok(_) => final(self).measure() < old(self).measure(),
                Err(e) => e == CompileError::ExpectedToken || is_lex_error(e),
            }),
    {
        let ghost pre0 = *self;
        match self.try_match(TokenType::NEWLINE) {
            Err(e) => {
                proof {
                    if pre0.cur().ttype == TokenType::NEWLINE {
                        assert(first_past_newlines(
                            pre0.src(),
                            pre0.cur().ttype,
                            pre0.peek_tok().ttype,
                            pre0.pos(),
                        ) is Err);
                    }
                }
                return Err(e);
            },
            Ok(_) => {},
        }
        proof {
            assert(first_past_newlines(
                old(self).src(),
                old(self).cur().ttype,
                old(self).peek_tok().ttype,
                old(self).pos(),
            ) == first_past_newlines(
                self.src(),
                self.cur().ttype,
                self.peek_tok().ttype,
                self.pos(),
            ));
        }
        while self.check_token(TokenType::NEWLINE)
            invariant
                self.wf(),
                self.src() == old(self).src(),
                old(self).cur().ttype == TokenType::NEWLINE,
                self.syms() == old(self).syms(),
                self.declared() == old(self).declared(),
                self.used() == old(self).used(),
                self.header_text() == old(self).header_text(),
                self.body_text() == old(self).body_text(),
                self.measure() < old(self).measure(),
                first_past_newlines(
                    old(self).src(),
                    old(self).cur().ttype,
                    old(self).peek_tok().ttype,
                    old(self).pos(),
                ) == first_past_newlines(
                    self.src(),
                    self.cur().ttype,
                    self.peek_tok().ttype,
                    self.pos(),
                ),
            decreases self.measure(),
        {
            let ghost pre = *self;
            match self.next_token() {
                Err(e) => {
                    proof {
                        assert(first_past_newlines(
                            pre.src(),
                            pre.cur().ttype,
                            pre.peek_tok().ttype,
                            pre.pos(),
                        ) is Err);
                    }
                    return Err(e);
                },
                Ok(_) => {},
            }
            proof {
                assert(first_past_newlines(
                    pre.src(),
                    pre.cur().ttype,
                    pre.peek_tok().ttype,
                    pre.pos(),
                ) == first_past_newlines(
                    self.src(),
                    self.cur().ttype,
                    self.peek_tok().ttype,
                    self.pos(),
                ));
            }
        }
        Ok(())
    }

    /// The `PRINT` statement's own work: a string literal becomes a verbatim
    /// formatted print, anything else a two-decimal numeric print of the
    /// translated expression; the terminating newline is left to the caller.
    #[verifier::rlimit(100)]
    fn print_statement(&mut self) -> (r: Result<(), CompileError>)
        requires
            old(self).wf(),
            old(self).cur().ttype == TokenType::PRINT,
        ensures
            final(self).wf(),
            final(self).src() == old(self).src(),
            final(self).syms() == old(self).syms(),
            final(self).declared() == old(self).declared(),
            final(self).used() == old(self).used(),
            final(self).header_text() == old(self).header_text(),
            old(self).body_text().is_prefix_of(final(self).body_text()),
            old(self).peek_tok().ttype == TokenType::STRING ==> (match scan(
                old(self).src(),
                old(self).pos(),
            ) {
                LexStep::Fail { err } => r == Result::<(), CompileError>::Err(err),
                LexStep::Tok { text: x3, ttype: y3, next: n3 } => (match scan(
                    old(self).src(),
                    n3,
                ) {
                    LexStep::Fail { err } => r == Result::<(), CompileError>::Err(err),
                    LexStep::Tok { text: x4, ttype: y4, next: n4 } => {
                        &&& r is Ok
                        &&& final(self).est() == (EState {
                            cur: STok { text: x3, ttype: y3 },
                            peek: STok { text: x4, ttype: y4 },
                            pos: n4,
                        })
                        &&& final(self).body_text() == old(self).body_text() + print_string_line(
                            old(self).peek_tok().text@,
                        )
                    },
                }),
            }),
            old(self).peek_tok().ttype != TokenType::STRING ==> (match scan(
                old(self).src(),
                old(self).pos(),
            ) {
                LexStep::Fail { err } => r == Result::<(), CompileError>::Err(err),
                LexStep::Tok { text: x3, ttype: y3, next: n3 } => (match sp_expression(
                    old(self).src(),
                    EState {
                        cur: STok {
                            text: old(self).peek_tok().text@,
                            ttype: old(self).peek_tok().ttype,
                        },
                        peek: STok { text: x3, ttype: y3 },
                        pos: n3,
                    },
                    old(self).syms(),
                ) {
                    ParseStep::Fail { err } => r == Result::<(), CompileError>::Err(err),
                    ParseStep::Next { emitted, st } => {
                        &&& r is Ok
                        &&& final(self).est() == st
                        &&& final(self).body_text() == old(self).body_text()
                            + "printf(\"%.2f\\n\", (float)("@ + emitted + "));"@ + seq!['\n']
                    },
                }),
            }),
            (match r {
                Ok(_) => final(self).measure() < old(self).measure(),
                Err(e) => e != CompileError::UndeclaredLabel,
            }),
        decreases old(self).measure(), 0int,
    {
        match self.next_token() {
            Err(e) => return Err(e),
            Ok(_) => {},
        }
        if self.check_token(TokenType::STRING) {
            let text = self.get_current_token_text();
            let line = concat3("printf(\"", text.as_str(), "\\n\");");
            let ghost b = self.body_text();
            self.emitter.emit_line(line.as_str());
            proof {
                lemma_prefix_emit_line(old(self).body_text(), b, line@);
                assert(self.emitter.code_text() =~= old(self).body_text()
                    + print_string_line(old(self).peek_tok().text@));
            }
            match self.next_token() {
                Err(e) => return Err(e),
                Ok(_) => {},
            }
        } else {
            let ghost b = self.body_text();
            self.emitter.emit("printf(\"%.2f\\n\", (float)(");
            proof {
                lemma_prefix_emit(old(self).body_text(), b, "printf(\"%.2f\\n\", (float)("@);
            }
            let ghost mid = *self;
            match self.expression() {
                Err(e) => return Err(e),
                Ok(_) => {},
            }
            proof {
                lemma_prefix_trans(
                    old(self).body_text(),
                    mid.body_text(),
                    self.body_text(),
                );
            }
            let ghost b2 = self.body_text();
            self.emitter.emit_line("));");
            proof {
                lemma_prefix_emit_line(old(self).body_text(), b2, "));"@);
            }
        }
        Ok(())
    }

    /// The `IF` statement's own work, through its closing `ENDIF` and brace: the guard's translation wrapped in `if( ... ) {` and the nested statements, the terminating newline left to the caller.
    #[verifier::rlimit(100)]
    fn if_statement(&mut self) -> (r: Result<(), CompileError>)
        requires
            old(self).wf(),
            old(self).cur().ttype == TokenType::IF,
        ensures
            final(self).wf(),
            final(self).src() == old(self).src(),
            old(self).syms().subset_of(final(self).syms()),
            old(self).declared().subset_of(final(self).declared()),
            old(self).used().subset_of(final(self).used()),
            old(self).header_text().is_prefix_of(final(self).header_text()),
            old(self).body_text().is_prefix_of(final(self).body_text()),
            (old(self).peek_tok().ttype == TokenType::IDENT && !old(self).syms().contains(
                old(self).peek_tok().text@,
            )) ==> (match scan(old(self).src(), old(self).pos()) {
                LexStep::Fail { err } => r == Result::<(), CompileError>::Err(err),
                LexStep::Tok { .. } => r == Result::<(), CompileError>::Err(
                    CompileError::UndeclaredVariable,
                ),
            }),
            old(self).peek_tok().ttype == TokenType::NUMBER ==> (match scan(
                old(self).src(),
                old(self).pos(),
            ) {
                LexStep::Fail { err } => r == Result::<(), CompileError>::Err(err),
                LexStep::Tok { text: x3, ttype: y3, next: n3 } => (!continues_expression(y3)
                    && !is_cmp_op(y3)) ==> (match scan(old(self).src(), n3) {
                    LexStep::Fail { err } => r == Result::<(), CompileError>::Err(err),
                    LexStep::Tok { .. } => r == Result::<(), CompileError>::Err(
                        CompileError::MissingComparisonOperator,
                    ),
                }),
            }),
            (match r {
                Ok(_) => final(self).measure() < old(self).measure(),
                Err(e) => e != CompileError::UndeclaredLabel,
            }),
        decreases old(self).measure(), 0int,
    {
        match self.next_token() {
            Err(e) => return Err(e),
            Ok(_) => {},
        }
        let ghost b = self.body_text();
        self.emitter.emit("if(");
        proof {
            lemma_prefix_emit(old(self).body_text(), b, "if("@);
        }
        let ghost mid = *self;
        match self.comparison() {
            Err(e) => return Err(e),
            Ok(_) => {},
        }
        proof {
            lemma_prefix_trans(old(self).body_text(), mid.body_text(), self.body_text());
        }
        match self.try_match(TokenType::THEN) {
            Err(e) => return Err(e),
            Ok(_) => {},
        }
        match self.new_line() {
            Err(e) => return Err(e),
            Ok(_) => {},
        }
        let ghost b2 = self.body_text();
        self.emitter.emit_line(") {");
        proof {
            lemma_prefix_emit_line(old(self).body_text(), b2, ") {"@);
        }
        while !self.check_token(TokenType::ENDIF)
            invariant
                self.wf(),
                self.src() == old(self).src(),
                old(self).cur().ttype == TokenType::IF,
            (old(self).peek_tok().ttype == TokenType::NUMBER && (match scan(
                old(self).src(),
                old(self).pos(),
            ) {
                LexStep::Fail { .. } => true,
                LexStep::Tok { text: x3, ttype: y3, next: n3 } => !continues_expression(y3)
                    && !is_cmp_op(y3),
            })) ==> false,
    old(self).peek_tok().ttype == TokenType::IDENT && !old(self).syms().contains(
            old(self).peek_tok().text@,
        ) ==> false,
                old(self).syms().subset_of(self.syms()),
                old(self).declared().subset_of(self.declared()),
                old(self).used().subset_of(self.used()),
                old(self).header_text().is_prefix_of(self.header_text()),
                old(self).body_text().is_prefix_of(self.body_text()),
                self.measure() < old(self).measure(),
            decreases self.measure(),
        {
            let ghost mid = *self;
            match self.statement() {
                Err(e) => return Err(e),
                Ok(_) => {},
            }
            proof {
                lemma_prefix_trans(
                    old(self).header_text(),
                    mid.header_text(),
                    self.header_text(),
                );
                lemma_prefix_trans(
                    old(self).body_text(),
                    mid.body_text(),
                    self.body_text(),
                );
            }
        }
        match self.try_match(TokenType::ENDIF) {
            Err(e) => return Err(e),
            Ok(_) => {},
        }
        let ghost b3 = self.body_text();
        self.emitter.emit_line("}");
        proof {
            lemma_prefix_emit_line(old(self).body_text(), b3, "}"@);
        }
        Ok(())
    }

    /// The `WHILE` statement's own work, through its closing `ENDWHILE` and brace: a pre-test loop `while( ... ) {` around the nested statements, the terminating newline left to the caller.
    #[verifier::rlimit(100)]
    fn while_statement(&mut self) -> (r: Result<(), CompileError>)
        requires
            old(self).wf(),
            old(self).cur().ttype == TokenType::WHILE,
        ensures
            final(self).wf(),
            final(self).src() == old(self).src(),
            old(self).syms().subset_of(final(self).syms()),
            old(self).declared().subset_of(final(self).declared()),
            old(self).used().subset_of(final(self).used()),
            old(self).header_text().is_prefix_of(final(self).header_text()),
            old(self).body_text().is_prefix_of(final(self).body_text()),
            (old(self).peek_tok().ttype == TokenType::IDENT && !old(self).syms().contains(
                old(self).peek_tok().text@,
            )) ==> (match scan(old(self).src(), old(self).pos()) {
                LexStep::Fail { err } => r == Result::<(), CompileError>::Err(err),
                LexStep::Tok { .. } => r == Result::<(), CompileError>::Err(
                    CompileError::UndeclaredVariable,
                ),
            }),
            old(self).peek_tok().ttype == TokenType::NUMBER ==> (match scan(
                old(self).src(),
                old(self).pos(),
            ) {
                LexStep::Fail { err } => r == Result::<(), CompileError>::Err(err),
                LexStep::Tok { text: x3, ttype: y3, next: n3 } => (!continues_expression(y3)
                    && !is_cmp_op(y3)) ==> (match scan(old(self).src(), n3) {
                    LexStep::Fail { err } => r == Result::<(), CompileError>::Err(err),
                    LexStep::Tok { .. } => r == Result::<(), CompileError>::Err(
                        CompileError::MissingComparisonOperator,
                    ),
                }),
            }),
            (match r {
                Ok(_) => final(self).measure() < old(self).measure(),
                Err(e) => e != CompileError::UndeclaredLabel,
            }),
        decreases old(self).measure(), 0int,
    {
        match self.next_token() {
            Err(e) => return Err(e),
            Ok(_) => {},
        }
        let ghost b = self.body_text();
        self.emitter.emit("while(");
        proof {
            lemma_prefix_emit(old(self).body_text(), b, "while("@);
        }
        let ghost mid = *self;
        match self.comparison() {
            Err(e) => return Err(e),
            Ok(_) => {},
        }
        proof {
            lemma_prefix_trans(old(self).body_text(), mid.body_text(), self.body_text());
        }
        match self.try_match(TokenType::REPEAT) {
            Err(e) => return Err(e),
            Ok(_) => {},
        }
        match self.new_line() {
            Err(e) => return Err(e),
            Ok(_) => {},
        }
        let ghost b2 = self.body_text();
        self.emitter.emit_line(") {");
        proof {
            lemma_prefix_emit_line(old(self).body_text(), b2, ") {"@);
        }
        while !self.check_token(TokenType::ENDWHILE)
            invariant
                self.wf(),
                self.src() == old(self).src(),
                old(self).cur().ttype == TokenType::WHILE,
            (old(self).peek_tok().ttype == TokenType::NUMBER && (match scan(
                old(self).src(),
                old(self).pos(),
            ) {
                LexStep::Fail { .. } => true,
                LexStep::Tok { text: x3, ttype: y3, next: n3 } => !continues_expression(y3)
                    && !is_cmp_op(y3),
            })) ==> false,
    old(self).peek_tok().ttype == TokenType::IDENT && !old(self).syms().contains(
            old(self).peek_tok().text@,
        ) ==> false,
                old(self).syms().subset_of(self.syms()),
                old(self).declared().subset_of(self.declared()),
                old(self).used().subset_of(self.used()),
                old(self).header_text().is_prefix_of(self.header_text()),
                old(self).body_text().is_prefix_of(self.body_text()),
                self.measure() < old(self).measure(),
            decreases self.measure(),
        {
            let ghost mid = *self;
            match self.statement() {
                Err(e) => return Err(e),
                Ok(_) => {},
            }
            proof {
                lemma_prefix_trans(
                    old(self).header_text(),
                    mid.header_text(),
                    self.header_text(),
                );
                lemma_prefix_trans(
                    old(self).body_text(),
                    mid.body_text(),
                    self.body_text(),
                );
            }
        }
        match self.try_match(TokenType::ENDWHILE) {
            Err(e) => return Err(e),
            Ok(_) => {},
        }
        let ghost b3 = self.body_text();
        self.emitter.emit_line("}");
        proof {
            lemma_prefix_emit_line(old(self).body_text(), b3, "}"@);
        }
        Ok(())
    }

    /// One statement of the grammar, dispatched on its leading keyword, with
    /// its translation emitted as it is recognized and its terminating
    /// newline consumed.
    ///
    /// The tables only grow and the emitted text is only appended to, on
    /// every path.  On success the statement's tokens have been consumed
    /// (the measure shrinks).  A `LABEL` declares a fresh label and a second
    /// declaration of the same name is refused; a `GOTO` records its target
    /// as used, forward references permitted; `LET` and `INPUT` declare
    /// their variable.  For the statement forms whose tail is decided by
    /// tokens alone — `LABEL`, `GOTO`, `INPUT` and the string form of
    /// `PRINT` — the outcome is owed exactly: success when the scanned
    /// terminator is in order, the precise error otherwise.  An undeclared
    /// identifier right after `PRINT`, `IF` or `WHILE`, and a bare number
    /// with no comparison operator after `IF` or `WHILE`, are owed their
    /// errors as well.
    #[verifier::rlimit(100)]
    #[verifier::spinoff_prover]
    fn statement(&mut self) -> (r: Result<(), CompileError>)
        requires
            old(self).wf(),
        ensures
            final(self).wf(),
            final(self).src() == old(self).src(),
            old(self).syms().subset_of(final(self).syms()),
            old(self).declared().subset_of(final(self).declared()),
            old(self).used().subset_of(final(self).used()),
            old(self).header_text().is_prefix_of(final(self).header_text()),
            old(self).body_text().is_prefix_of(final(self).body_text()),
            !is_statement_keyword(old(self).cur().ttype) ==> r == Result::<(), CompileError>::Err(
                CompileError::InvalidStatement,
            ) && *final(self) == *old(self),
            (old(self).cur().ttype == TokenType::LABEL && old(self).peek_tok().ttype
                == TokenType::IDENT && old(self).declared().contains(old(self).peek_tok().text@))
                ==> (match scan(old(self).src(), old(self).pos()) {
                LexStep::Fail { err } => r == Result::<(), CompileError>::Err(err),
                LexStep::Tok { .. } => r == Result::<(), CompileError>::Err(
                    CompileError::DuplicateLabel,
                ),
            }),
            (old(self).cur().ttype == TokenType::LABEL && old(self).peek_tok().ttype
                == TokenType::IDENT && !old(self).declared().contains(old(self).peek_tok().text@))
                ==> r == terminator_outcome(old(self).src(), old(self).pos()),
            (old(self).cur().ttype == TokenType::GOTO && old(self).peek_tok().ttype
                == TokenType::IDENT) ==> r == terminator_outcome(old(self).src(), old(self).pos()),
            (old(self).cur().ttype == TokenType::INPUT && old(self).peek_tok().ttype
                == TokenType::IDENT) ==> r == terminator_outcome(old(self).src(), old(self).pos()),
            (old(self).cur().ttype == TokenType::PRINT && old(self).peek_tok().ttype
                == TokenType::STRING) ==> r == terminator_outcome(old(self).src(), old(self).pos()),
            ((old(self).cur().ttype == TokenType::PRINT || old(self).cur().ttype == TokenType::IF
                || old(self).cur().ttype == TokenType::WHILE) && old(self).peek_tok().ttype
                == TokenType::IDENT && !old(self).syms().contains(old(self).peek_tok().text@))
                ==> (match scan(old(self).src(), old(self).pos()) {
                LexStep::Fail { err } => r == Result::<(), CompileError>::Err(err),
                LexStep::Tok { .. } => r == Result::<(), CompileError>::Err(
                    CompileError::UndeclaredVariable,
                ),
            }),
            ((old(self).cur().ttype == TokenType::IF || old(self).cur().ttype == TokenType::WHILE)
                && old(self).peek_tok().ttype == TokenType::NUMBER) ==> (match scan(
                old(self).src(),
                old(self).pos(),
            ) {
                LexStep::Fail { err } => r == Result::<(), CompileError>::Err(err),
                LexStep::Tok { text: x3, ttype: y3, next: n3 } => (!continues_expression(y3)
                    && !is_cmp_op(y3)) ==> (match scan(old(self).src(), n3) {
                    LexStep::Fail { err } => r == Result::<(), CompileError>::Err(err),
                    LexStep::Tok { .. } => r == Result::<(), CompileError>::Err(
                        CompileError::MissingComparisonOperator,
                    ),
                }),
            }),
            (old(self).cur().ttype == TokenType::LET && old(self).peek_tok().ttype
                == TokenType::IDENT) ==> (match scan(old(self).src(), old(self).pos()) {
                LexStep::Fail { err } => r == Result::<(), CompileError>::Err(err),
                LexStep::Tok { text: x3, ttype: y3, next: n3 } => (match scan(
                    old(self).src(),
                    n3,
                ) {
                    LexStep::Fail { err } => r == Result::<(), CompileError>::Err(err),
                    LexStep::Tok { text: x4, ttype: y4, next: n4 } => if y3 != TokenType::EQ {
                        r == Result::<(), CompileError>::Err(CompileError::ExpectedToken)
                    } else {
                        match scan(old(self).src(), n4) {
                            LexStep::Fail { err } => r == Result::<(), CompileError>::Err(err),
                            LexStep::Tok { text: x5, ttype: y5, next: n5 } => (match sp_expression(
                                old(self).src(),
                                EState {
                                    cur: STok { text: x4, ttype: y4 },
                                    peek: STok { text: x5, ttype: y5 },
                                    pos: n5,
                                },
                                old(self).syms().insert(old(self).peek_tok().text@),
                            ) {
                                ParseStep::Fail { err } => r == Result::<(), CompileError>::Err(
                                    err,
                                ),
                                ParseStep::Next { emitted, st } => {
                                    &&& (st.cur.ttype != TokenType::NEWLINE ==> r == Result::<
                                        (),
                                        CompileError,
                                    >::Err(CompileError::ExpectedToken))
                                    &&& (st.cur.ttype == TokenType::NEWLINE ==> (
                                    match first_past_newlines(
                                        old(self).src(),
                                        st.cur.ttype,
                                        st.peek.ttype,
                                        st.pos,
                                    ) {
                                        Ok(t) => r is Ok && final(self).body_text() == old(
                                            self,
                                        ).body_text() + (old(self).peek_tok().text@ + " = "@)
                                            + emitted + ";"@ + seq!['\n'],
                                        Err(err) => r == Result::<(), CompileError>::Err(err),
                                    }))
                                },
                            }),
                        }
                    },
                }),
            }),
            (match r {
                Ok(_) => {
                    &&& final(self).measure() < old(self).measure()
                    &&& (old(self).cur().ttype == TokenType::LABEL ==> {
                        &&& !old(self).declared().contains(old(self).peek_tok().text@)
                        &&& final(self).declared() == old(self).declared().insert(
                            old(self).peek_tok().text@,
                        )
                        &&& final(self).body_text() == old(self).body_text() + label_line(
                            old(self).peek_tok().text@,
                        )
                    })
                    &&& (old(self).cur().ttype == TokenType::GOTO ==> {
                        &&& final(self).used() == old(self).used().insert(
                            old(self).peek_tok().text@,
                        )
                        &&& final(self).declared() == old(self).declared()
                        &&& final(self).body_text() == old(self).body_text() + goto_line(
                            old(self).peek_tok().text@,
                        )
                    })
                    &&& ((old(self).cur().ttype == TokenType::LET || old(self).cur().ttype
                        == TokenType::INPUT) ==> final(self).syms() == old(self).syms().insert(
                        old(self).peek_tok().text@,
                    ))
                    &&& (old(self).cur().ttype == TokenType::PRINT && old(self).peek_tok().ttype
                        == TokenType::STRING ==> final(self).body_text() == old(self).body_text()
                        + print_string_line(old(self).peek_tok().text@))
                    &&& (old(self).cur().ttype == TokenType::INPUT ==> final(self).body_text()
                        == old(self).body_text() + input_block(old(self).peek_tok().text@))
                    &&& ((old(self).cur().ttype == TokenType::PRINT || old(self).cur().ttype
                        == TokenType::LABEL || old(self).cur().ttype == TokenType::GOTO)
                        ==> final(self).header_text() == old(self).header_text())
                    &&& ((old(self).cur().ttype == TokenType::LET || old(self).cur().ttype
                        == TokenType::INPUT) ==> {
                        &&& (old(self).syms().contains(old(self).peek_tok().text@)
                            ==> final(self).header_text() == old(self).header_text())
                        &&& (!old(self).syms().contains(old(self).peek_tok().text@)
                            ==> final(self).header_text() == old(self).header_text() + decl_line(
                            old(self).peek_tok().text@,
                        ))
                    })
                },
                Err(e) => e != CompileError::UndeclaredLabel,
            }),
        decreases old(self).measure(), 1int,
    {
        let ttype = self.get_current_token_type();
        proof {
            lemma_prefix_refl(old(self).header_text());
            lemma_prefix_refl(old(self).body_text());
        }
        match ttype {
            // "PRINT" (expression | string)
            TokenType::PRINT => {
                match self.print_statement() {
                    Err(e) => return Err(e),
                    Ok(_) => {},
                }
            },
            // "IF" comparison "THEN" newline {statement} "ENDIF"
            TokenType::IF => {
                match self.if_statement() {
                    Err(e) => return Err(e),
                    Ok(_) => {},
                }
            },
            // "WHILE" comparison "REPEAT" newline {statement} "ENDWHILE"
            TokenType::WHILE => {
                match self.while_statement() {
                    Err(e) => return Err(e),
                    Ok(_) => {},
                }
            },
            // "LABEL" ident
            TokenType::LABEL => {
                match self.next_token() {
                    Err(e) => return Err(e),
                    Ok(_) => {},
                }
                let text = self.get_current_token_text();
                if contains_name(&self.labels_declared, &text) {
                    return Err(CompileError::DuplicateLabel);
                }
                let ghost decl0 = self.labels_declared@;
                self.labels_declared.push(text.clone());
                proof {
                    lemma_name_set_push(decl0, text);
                }
                match self.try_match(TokenType::IDENT) {
                    Err(e) => return Err(e),
                    Ok(_) => {},
                }
                let line = concat2(text.as_str(), ":");
                let ghost b = self.body_text();
                self.emitter.emit_line(line.as_str());
                proof {
                    lemma_prefix_emit_line(old(self).body_text(), b, line@);
                    assert(self.emitter.code_text() =~= old(self).body_text() + label_line(
                        old(self).peek_tok().text@,
                    ));
                }
            },
            // "GOTO" ident
            TokenType::GOTO => {
                match self.next_token() {
                    Err(e) => return Err(e),
                    Ok(_) => {},
                }
                let text = self.get_current_token_text();
                if !contains_name(&self.labels_used, &text) {
                    let ghost used0 = self.labels_used@;
                    self.labels_used.push(text.clone());
                    proof {
                        lemma_name_set_push(used0, text);
                    }
                } else {
                    proof {
                        assert(old(self).used().insert(text@) =~= old(self).used());
                    }
                }
                match self.try_match(TokenType::IDENT) {
                    Err(e) => return Err(e),
                    Ok(_) => {},
                }
                let line = concat3("goto ", text.as_str(), ";");
                let ghost b = self.body_text();
                self.emitter.emit_line(line.as_str());
                proof {
                    lemma_prefix_emit_line(old(self).body_text(), b, line@);
                    assert(self.emitter.code_text() =~= old(self).body_text() + goto_line(
                        old(self).peek_tok().text@,
                    ));
                }
            },
            // "LET" ident "=" expression
            TokenType::LET => {
                match self.next_token() {
                    Err(e) => return Err(e),
                    Ok(_) => {},
                }
                self.declare_current_symbol();
                proof {
                    lemma_prefix_concat(
                        old(self).header_text(),
                        decl_line(old(self).peek_tok().text@),
                    );
                }
                let text = self.get_current_token_text();
                let line = concat2(text.as_str(), " = ");
                let ghost b = self.body_text();
                self.emitter.emit(line.as_str());
                proof {
                    lemma_prefix_emit(old(self).body_text(), b, line@);
                }
                match self.try_match(TokenType::IDENT) {
                    Err(e) => return Err(e),
                    Ok(_) => {},
                }
                match self.try_match(TokenType::EQ) {
                    Err(e) => return Err(e),
                    Ok(_) => {},
                }
                let ghost mid = *self;
                match self.expression() {
                    Err(e) => return Err(e),
                    Ok(_) => {},
                }
                proof {
                    lemma_prefix_trans(old(self).body_text(), mid.body_text(), self.body_text());
                }
                let ghost b2 = self.body_text();
                self.emitter.emit_line(";");
                proof {
                    lemma_prefix_emit_line(old(self).body_text(), b2, ";"@);
                }
            },
            // "INPUT" ident
            TokenType::INPUT => {
                match self.next_token() {
                    Err(e) => return Err(e),
                    Ok(_) => {},
                }
                self.declare_current_symbol();
                proof {
                    lemma_prefix_concat(
                        old(self).header_text(),
                        decl_line(old(self).peek_tok().text@),
                    );
                }
                let text = self.get_current_token_text();
                match self.try_match(TokenType::IDENT) {
                    Err(e) => return Err(e),
                    Ok(_) => {},
                }
                let guard = concat3("if (0 == scanf(\"%f\", &", text.as_str(), ")) {");
                let ghost b1 = self.body_text();
                self.emitter.emit_line(guard.as_str());
                proof {
                    lemma_prefix_emit_line(old(self).body_text(), b1, guard@);
                }
                let reset = concat2(text.as_str(), " = 0;");
                let ghost b2 = self.body_text();
                self.emitter.emit_line(reset.as_str());
                proof {
                    lemma_prefix_emit_line(old(self).body_text(), b2, reset@);
                }
                let ghost b3 = self.body_text();
                self.emitter.emit("scanf(\"%");
                proof {
                    lemma_prefix_emit(old(self).body_text(), b3, "scanf(\"%"@);
                }
                let ghost b4 = self.body_text();
                self.emitter.emit_line("*s\");");
                proof {
                    lemma_prefix_emit_line(old(self).body_text(), b4, "*s\");"@);
                }
                let ghost b5 = self.body_text();
                self.emitter.emit_line("}");
                proof {
                    lemma_prefix_emit_line(old(self).body_text(), b5, "}"@);
                    assert(self.emitter.code_text() =~= old(self).body_text() + input_block(
                        old(self).peek_tok().text@,
                    ));
                }
            },
            _ => {
                return Err(CompileError::InvalidStatement);
            },
        }
        match self.new_line() {
            Err(e) => return Err(e),
            Ok(_) => {},
        }
        Ok(())
    }

    /// `program ::= newline* statement* EOF` — emits the prologue, parses
    /// every statement, emits the epilogue, and only then checks that every
    /// label used as a jump destination was declared somewhere: forward
    /// references are legal, a never-declared target is the one failure
    /// detected only at the end of the whole program.
    pub fn program(&mut self) -> (r: Result<(), CompileError>)
        requires
            old(self).wf(),
        ensures
            final(self).wf(),
            final(self).src() == old(self).src(),
            old(self).syms().subset_of(final(self).syms()),
            old(self).declared().subset_of(final(self).declared()),
            old(self).used().subset_of(final(self).used()),
            old(self).header_text().is_prefix_of(final(self).header_text()),
            (old(self).header_text() + prologue_text()).is_prefix_of(final(self).header_text()),
            old(self).body_text().is_prefix_of(final(self).body_text()),
            (match r {
                Ok(_) => {
                    &&& final(self).cur().ttype == TokenType::EOF
                    &&& epilogue_text().is_suffix_of(final(self).body_text())
                    &&& forall|l: Seq<char>|
                        final(self).used().contains(l) ==> final(self).declared().contains(l)
                },
                Err(e) => e == CompileError::UndeclaredLabel ==> exists|l: Seq<char>|
                    final(self).used().contains(l) && !final(self).declared().contains(l),
            }),
            (match first_past_newlines(
                old(self).src(),
                old(self).cur().ttype,
                old(self).peek_tok().ttype,
                old(self).pos(),
            ) {
                Ok(t) => (t == TokenType::EOF && (forall|l: Seq<char>|
                    old(self).used().contains(l) ==> old(self).declared().contains(l))) ==> {
                    &&& r is Ok
                    &&& final(self).header_text() == old(self).header_text() + prologue_text()
                    &&& final(self).body_text() == old(self).body_text() + epilogue_text()
                },
                Err(_) => true,
            }),
            ((old(self).cur().ttype == TokenType::PRINT || old(self).cur().ttype == TokenType::IF
                || old(self).cur().ttype == TokenType::WHILE) && old(self).peek_tok().ttype
                == TokenType::IDENT && !old(self).syms().contains(old(self).peek_tok().text@))
                ==> (match scan(old(self).src(), old(self).pos()) {
                LexStep::Fail { err } => r == Result::<(), CompileError>::Err(err),
                LexStep::Tok { .. } => r == Result::<(), CompileError>::Err(
                    CompileError::UndeclaredVariable,
                ),
            }),
            ((old(self).cur().ttype == TokenType::IF || old(self).cur().ttype == TokenType::WHILE)
                && old(self).peek_tok().ttype == TokenType::NUMBER) ==> (match scan(
                old(self).src(),
                old(self).pos(),
            ) {
                LexStep::Fail { err } => r == Result::<(), CompileError>::Err(err),
                LexStep::Tok { text: x3, ttype: y3, next: n3 } => (!continues_expression(y3)
                    && !is_cmp_op(y3)) ==> (match scan(old(self).src(), n3) {
                    LexStep::Fail { err } => r == Result::<(), CompileError>::Err(err),
                    LexStep::Tok { .. } => r == Result::<(), CompileError>::Err(
                        CompileError::MissingComparisonOperator,
                    ),
                }),
            }),
    {
        self.emitter.header_line("#include <stdio.h>");
        self.emitter.header_line("int main (void) {");
        proof {
            assert(self.emitter.header_text() =~= old(self).header_text() + prologue_text());
            lemma_prefix_refl(old(self).header_text() + prologue_text());
            lemma_prefix_concat(old(self).header_text(), prologue_text());
            lemma_prefix_refl(old(self).body_text());
        }
        while self.check_token(TokenType::NEWLINE)
            invariant
                self.wf(),
                self.src() == old(self).src(),
                self.syms() == old(self).syms(),
                self.declared() == old(self).declared(),
                self.used() == old(self).used(),
                self.header_text() == old(self).header_text() + prologue_text(),
                old(self).header_text().is_prefix_of(self.header_text()),
                (old(self).header_text() + prologue_text()).is_prefix_of(self.header_text()),
                self.body_text() == old(self).body_text(),
                old(self).body_text().is_prefix_of(self.body_text()),
                old(self).cur().ttype != TokenType::NEWLINE ==> self.cur() == old(self).cur()
                    && self.peek_tok() == old(self).peek_tok() && self.pos() == old(self).pos()
                    && self.src() == old(self).src(),
                first_past_newlines(
                    old(self).src(),
                    old(self).cur().ttype,
                    old(self).peek_tok().ttype,
                    old(self).pos(),
                ) == first_past_newlines(
                    self.src(),
                    self.cur().ttype,
                    self.peek_tok().ttype,
                    self.pos(),
                ),
            decreases self.measure(),
        {
            let ghost pre = *self;
            match self.next_token() {
                Err(e) => {
                    proof {
                        assert(first_past_newlines(
                            pre.src(),
                            pre.cur().ttype,
                            pre.peek_tok().ttype,
                            pre.pos(),
                        ) is Err);
                    }
                    return Err(e);
                },
                Ok(_) => {},
            }
            proof {
                assert(scan(pre.src(), pre.pos()) matches LexStep::Tok { text, ttype, next });
                assert(first_past_newlines(
                    pre.src(),
                    pre.cur().ttype,
                    pre.peek_tok().ttype,
                    pre.pos(),
                ) == first_past_newlines(
                    self.src(),
                    self.cur().ttype,
                    self.peek_tok().ttype,
                    self.pos(),
                ));
            }
        }
        let ghost first_t = self.cur().ttype;
        proof {
            assert(first_past_newlines(
                old(self).src(),
                old(self).cur().ttype,
                old(self).peek_tok().ttype,
                old(self).pos(),
            ) == Ok::<TokenType, CompileError>(first_t));
            lemma_prefix_refl(self.header_text());
            lemma_prefix_refl(self.body_text());
        }
        while !self.check_token(TokenType::EOF)
            invariant
                self.wf(),
                self.src() == old(self).src(),
                old(self).syms().subset_of(self.syms()),
                old(self).declared().subset_of(self.declared()),
                old(self).used().subset_of(self.used()),
                old(self).header_text().is_prefix_of(self.header_text()),
                (old(self).header_text() + prologue_text()).is_prefix_of(self.header_text()),
                old(self).body_text().is_prefix_of(self.body_text()),
                first_past_newlines(
                    old(self).src(),
                    old(self).cur().ttype,
                    old(self).peek_tok().ttype,
                    old(self).pos(),
                ) == Ok::<TokenType, CompileError>(first_t),
                first_t == TokenType::EOF ==> self.cur().ttype == TokenType::EOF
                    && self.header_text() == old(self).header_text() + prologue_text()
                    && self.body_text() == old(self).body_text() && self.used() == old(self).used()
                    && self.declared() == old(self).declared(),
                ((old(self).cur().ttype == TokenType::PRINT || old(self).cur().ttype
                    == TokenType::IF || old(self).cur().ttype == TokenType::WHILE) && old(
                    self,
                ).peek_tok().ttype == TokenType::IDENT && !old(self).syms().contains(
                    old(self).peek_tok().text@,
                )) ==> self.cur() == old(self).cur() && self.peek_tok() == old(self).peek_tok()
                    && self.pos() == old(self).pos() && self.src() == old(self).src()
                    && self.syms() == old(self).syms(),
                ((old(self).cur().ttype == TokenType::IF || old(self).cur().ttype
                    == TokenType::WHILE) && old(self).peek_tok().ttype == TokenType::NUMBER && (
                match scan(old(self).src(), old(self).pos()) {
                    LexStep::Fail { .. } => true,
                    LexStep::Tok { text: x3, ttype: y3, next: n3 } => !continues_expression(y3)
                        && !is_cmp_op(y3),
                })) ==> self.cur() == old(self).cur() && self.peek_tok()
                    == old(self).peek_tok() && self.pos() == old(self).pos() && self.src() == old(
                    self,
                ).src(),
            decreases self.measure(),
        {
            let ghost mid = *self;
            match self.statement() {
                Err(e) => return Err(e),
                Ok(_) => {},
            }
            proof {
                lemma_prefix_trans(
                    old(self).header_text(),
                    mid.header_text(),
                    self.header_text(),
                );
                lemma_prefix_trans(
                    old(self).header_text() + prologue_text(),
                    mid.header_text(),
                    self.header_text(),
                );
                lemma_prefix_trans(old(self).body_text(), mid.body_text(), self.body_text());
            }
        }
        let ghost b1 = self.body_text();
        self.emitter.emit_line("return 0;");
        proof {
            lemma_prefix_emit_line(old(self).body_text(), b1, "return 0;"@);
        }
        let ghost b2 = self.body_text();
        self.emitter.emit_line("}");
        proof {
            lemma_prefix_emit_line(old(self).body_text(), b2, "}"@);
            lemma_suffix_concat(b1, epilogue_text());
            assert(self.emitter.code_text() =~= b1 + epilogue_text());
        }
        let mut i: usize = 0;
        while i < self.labels_used.len()
            invariant
                self.wf(),
                self.src() == old(self).src(),
                i <= self.labels_used.len(),
                self.cur().ttype == TokenType::EOF,
                old(self).syms().subset_of(self.syms()),
                old(self).declared().subset_of(self.declared()),
                old(self).used().subset_of(self.used()),
                old(self).header_text().is_prefix_of(self.header_text()),
                (old(self).header_text() + prologue_text()).is_prefix_of(self.header_text()),
                old(self).body_text().is_prefix_of(self.body_text()),
                epilogue_text().is_suffix_of(self.body_text()),
                first_past_newlines(
                    old(self).src(),
                    old(self).cur().ttype,
                    old(self).peek_tok().ttype,
                    old(self).pos(),
                ) == Ok::<TokenType, CompileError>(first_t),
                first_t == TokenType::EOF ==> self.header_text() == old(self).header_text()
                    + prologue_text() && self.body_text() == old(self).body_text()
                    + epilogue_text() && self.used() == old(self).used() && self.declared() == old(
                    self,
                ).declared(),
                ((old(self).cur().ttype == TokenType::PRINT || old(self).cur().ttype
                    == TokenType::IF || old(self).cur().ttype == TokenType::WHILE) && old(
                    self,
                ).peek_tok().ttype == TokenType::IDENT && !old(self).syms().contains(
                    old(self).peek_tok().text@,
                )) ==> false,
                ((old(self).cur().ttype == TokenType::IF || old(self).cur().ttype
                    == TokenType::WHILE) && old(self).peek_tok().ttype == TokenType::NUMBER && (
                match scan(old(self).src(), old(self).pos()) {
                    LexStep::Fail { .. } => true,
                    LexStep::Tok { text: x3, ttype: y3, next: n3 } => !continues_expression(y3)
                        && !is_cmp_op(y3),
                })) ==> false,
                forall|j: int| 0 <= j < i ==> self.declared().contains(self.labels_used@[j]@),
            decreases self.labels_used.len() - i,
        {
            if !contains_name(&self.labels_declared, &self.labels_used[i]) {
                proof {
                    let l = self.labels_used@[i as int]@;
                    assert(self.labels_used@.map_values(|s: String| s@)[i as int] == l);
                    assert(self.labels_used@.map_values(|s: String| s@).contains(l));
                    assert(self.used().contains(l) && !self.declared().contains(l));
                }
                return Err(CompileError::UndeclaredLabel);
            }
            i = i + 1;
        }
        proof {
            assert forall|l: Seq<char>| self.used().contains(l) implies self.declared().contains(
                l,
            ) by {
                let mapped = self.labels_used@.map_values(|s: String| s@);
                assert(mapped.contains(l));
                let j = choose|j: int| 0 <= j < mapped.len() && mapped[j] == l;
                assert(self.labels_used@[j]@ == l);
            }
        }
        Ok(())
    }

    /// The generated program so far: the header buffer, then the code
    /// buffer.
    pub fn output(&self) -> (out: String)
        ensures
            out@ == self.header_text() + self.body_text(),
    {
        self.emitter.output()
    }

    /// The table of declared variable names.
    pub fn symbol_names(&self) -> (v: &Vec<String>)
        ensures
            name_set(v@) == self.syms(),
    {
        &self.symbols
    }

    /// The table of declared label names.
    pub fn declared_labels(&self) -> (v: &Vec<String>)
        ensures
            name_set(v@) == self.declared(),
    {
        &self.labels_declared
    }

    /// The table of label names used as jump destinations.
    pub fn used_labels(&self) -> (v: &Vec<String>)
        ensures
            name_set(v@) == self.used(),
    {
        &self.labels_used
    }
}

} // verus!
