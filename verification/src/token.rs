//! The shared vocabulary of lexical categories, and the keyword table.
//!
//! A token pairs the exact lexeme with its category.  Keyword categories are
//! recognized only when an identifier-shaped lexeme case-insensitively matches
//! a reserved word; every other identifier-shaped lexeme is `IDENT`.

use vstd::prelude::*;

verus! {

/// The closed set of lexical categories: structural tokens, keywords, and
/// operators, kept as disjoint variants rather than numeric bands.
#[derive(PartialEq, Eq, Clone, Copy, Debug, Structural)]
pub enum TokenType {
    EOF,
    NEWLINE,
    NUMBER,
    IDENT,
    STRING,
    // Keywords.
    LABEL,
    GOTO,
    PRINT,
    INPUT,
    LET,
    IF,
    THEN,
    ENDIF,
    WHILE,
    REPEAT,
    ENDWHILE,
    // Operators.
    EQ,
    NOT,
    PLUS,
    MINUS,
    ASTERISK,
    SLASH,
    EQEQ,
    NOTEQ,
    LT,
    LTEQ,
    GT,
    GTEQ,
}

/// An immutable token: the exact lexeme and its category.
#[derive(Debug)]
pub struct Token {
    pub text: String,
    pub ttype: TokenType,
}

impl Token {
    pub fn new(text: String, ttype: TokenType) -> (t: Token)
        ensures
            t.text == text,
            t.ttype == ttype,
    {
        Token { text, ttype }
    }
}

/// The upper-case form of an ASCII letter; any other character is unchanged.
pub open spec fn upper_char(c: char) -> char {
    if 'a' <= c && c <= 'z' {
        ((c as u32) - 32) as char
    } else {
        c
    }
}

/// A sequence of characters, each folded to upper case.
pub open spec fn upper_seq(s: Seq<char>) -> Seq<char> {
    s.map_values(|c: char| upper_char(c))
}

/// The keyword category of an already upper-cased lexeme, if it is one of the
/// eleven reserved words.
pub open spec fn keyword_token(up: Seq<char>) -> Option<TokenType> {
    if up == seq!['L', 'A', 'B', 'E', 'L'] {
        Some(TokenType::LABEL)
    } else if up == seq!['G', 'O', 'T', 'O'] {
        Some(TokenType::GOTO)
    } else if up == seq!['P', 'R', 'I', 'N', 'T'] {
        Some(TokenType::PRINT)
    } else if up == seq!['I', 'N', 'P', 'U', 'T'] {
        Some(TokenType::INPUT)
    } else if up == seq!['L', 'E', 'T'] {
        Some(TokenType::LET)
    } else if up == seq!['I', 'F'] {
        Some(TokenType::IF)
    } else if up == seq!['T', 'H', 'E', 'N'] {
        Some(TokenType::THEN)
    } else if up == seq!['E', 'N', 'D', 'I', 'F'] {
        Some(TokenType::ENDIF)
    } else if up == seq!['W', 'H', 'I', 'L', 'E'] {
        Some(TokenType::WHILE)
    } else if up == seq!['R', 'E', 'P', 'E', 'A', 'T'] {
        Some(TokenType::REPEAT)
    } else if up == seq!['E', 'N', 'D', 'W', 'H', 'I', 'L', 'E'] {
        Some(TokenType::ENDWHILE)
    } else {
        None
    }
}

/// The category of an identifier-shaped lexeme: the matching keyword when its
/// upper-cased form is a reserved word, and `IDENT` otherwise.
pub open spec fn ident_token_type(text: Seq<char>) -> TokenType {
    match keyword_token(upper_seq(text)) {
        Some(k) => k,
        None => TokenType::IDENT,
    }
}

/// Upper-cases one character, exactly as `upper_char` describes.
pub fn to_upper(c: char) -> (r: char)
    ensures
        r == upper_char(c),
{
    if 'a' <= c && c <= 'z' {
        (((c as u32) - 32) as u8) as char
    } else {
        c
    }
}

/// The upper-cased copy of a character sequence.
pub fn to_upper_vec(v: &Vec<char>) -> (r: Vec<char>)
    ensures
        r@ == upper_seq(v@),
{
    let mut r: Vec<char> = Vec::new();
    let mut i: usize = 0;
    while i < v.len()
        invariant
            i <= v.len(),
            r@.len() == i,
            forall|j: int| 0 <= j < i ==> r@[j] == upper_char(v@[j]),
        decreases v.len() - i,
    {
        r.push(to_upper(v[i]));
        i = i + 1;
    }
    proof {
        assert(r@ =~= upper_seq(v@));
    }
    r
}

/// Decides `keyword_token` on an upper-cased lexeme.
fn keyword_lookup(up: &Vec<char>) -> (t: Option<TokenType>)
    ensures
        t == keyword_token(up@),
{
    if up.len() == 5 && up[0] == 'L' && up[1] == 'A' && up[2] == 'B' && up[3] == 'E' && up[4]
        == 'L' {
        proof {
            assert(up@ =~= seq!['L', 'A', 'B', 'E', 'L']);
        }
        return Some(TokenType::LABEL);
    }
    if up.len() == 4 && up[0] == 'G' && up[1] == 'O' && up[2] == 'T' && up[3] == 'O' {
        proof {
            assert(up@ =~= seq!['G', 'O', 'T', 'O']);
        }
        return Some(TokenType::GOTO);
    }
    if up.len() == 5 && up[0] == 'P' && up[1] == 'R' && up[2] == 'I' && up[3] == 'N' && up[4]
        == 'T' {
        proof {
            assert(up@ =~= seq!['P', 'R', 'I', 'N', 'T']);
        }
        return Some(TokenType::PRINT);
    }
    if up.len() == 5 && up[0] == 'I' && up[1] == 'N' && up[2] == 'P' && up[3] == 'U' && up[4]
        == 'T' {
        proof {
            assert(up@ =~= seq!['I', 'N', 'P', 'U', 'T']);
        }
        return Some(TokenType::INPUT);
    }
    if up.len() == 3 && up[0] == 'L' && up[1] == 'E' && up[2] == 'T' {
        proof {
            assert(up@ =~= seq!['L', 'E', 'T']);
        }
        return Some(TokenType::LET);
    }
    if up.len() == 2 && up[0] == 'I' && up[1] == 'F' {
        proof {
            assert(up@ =~= seq!['I', 'F']);
        }
        return Some(TokenType::IF);
    }
    if up.len() == 4 && up[0] == 'T' && up[1] == 'H' && up[2] == 'E' && up[3] == 'N' {
        proof {
            assert(up@ =~= seq!['T', 'H', 'E', 'N']);
        }
        return Some(TokenType::THEN);
    }
    if up.len() == 5 && up[0] == 'E' && up[1] == 'N' && up[2] == 'D' && up[3] == 'I' && up[4]
        == 'F' {
        proof {
            assert(up@ =~= seq!['E', 'N', 'D', 'I', 'F']);
        }
        return Some(TokenType::ENDIF);
    }
    if up.len() == 5 && up[0] == 'W' && up[1] == 'H' && up[2] == 'I' && up[3] == 'L' && up[4]
        == 'E' {
        proof {
            assert(up@ =~= seq!['W', 'H', 'I', 'L', 'E']);
        }
        return Some(TokenType::WHILE);
    }
    if up.len() == 6 && up[0] == 'R' && up[1] == 'E' && up[2] == 'P' && up[3] == 'E' && up[4]
        == 'A' && up[5] == 'T' {
        proof {
            assert(up@ =~= seq!['R', 'E', 'P', 'E', 'A', 'T']);
        }
        return Some(TokenType::REPEAT);
    }
    if up.len() == 8 && up[0] == 'E' && up[1] == 'N' && up[2] == 'D' && up[3] == 'W' && up[4]
        == 'H' && up[5] == 'I' && up[6] == 'L' && up[7] == 'E' {
        proof {
            assert(up@ =~= seq!['E', 'N', 'D', 'W', 'H', 'I', 'L', 'E']);
        }
        return Some(TokenType::ENDWHILE);
    }
    None
}

/// Classifies an identifier-shaped lexeme as a keyword or a plain identifier.
pub fn classify_ident(text: &Vec<char>) -> (t: TokenType)
    ensures
        t == ident_token_type(text@),
{
    let up = to_upper_vec(text);
    match keyword_lookup(&up) {
        Some(k) => k,
        None => TokenType::IDENT,
    }
}

} // verus!
