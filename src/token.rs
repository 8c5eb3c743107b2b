//! Tokens, the characters that make up words, and the Keyword Table.
use vstd::prelude::*;
use crate::grammar::{keyword_token, word_token};

verus! {

/// One lexical unit of the language.
#[derive(Debug, PartialEq, Clone)]
pub enum Token {
    Illegal,
    Eof,
    Ident(String),
    Int(i32),
    Assign,
    Plus,
    Minus,
    Bang,
    Asterisk,
    Slash,
    Comma,
    Semicolon,
    LT,
    GT,
    EQ,
    NotEQ,
    LParen,
    RParen,
    LBrace,
    RBrace,
    Function,
    Let,
    True,
    False,
    If,
    Else,
    Return,
}

/// The one failure of a scan: a run of digits that does not fit the integer literal.
#[derive(Debug, PartialEq, Eq, Clone, Copy)]
pub enum LexError {
    IntegerTooLarge,
}

/// Whether `std` classifies `c`, a character beyond ASCII, as alphabetic.
pub uninterp spec fn unicode_alphabetic(c: char) -> bool;

/// The letters `a` to `z` and `A` to `Z`.
pub open spec fn ascii_letter(c: char) -> bool {
    ('a' as u32 <= c as u32 <= 'z' as u32) || ('A' as u32 <= c as u32 <= 'Z' as u32)
}

/// The `Alphabetic` property: among ASCII characters it holds of the letters only.
pub open spec fn alphabetic(c: char) -> bool {
    if (c as u32) < 128 {
        ascii_letter(c)
    } else {
        unicode_alphabetic(c)
    }
}

/// Relies on `char::is_alphabetic`: an ASCII character is alphabetic exactly when it
/// is a letter; beyond ASCII the answer depends on the character alone.
#[verifier::external_body]
fn is_alphabetic(c: char) -> (r: bool)
    ensures
        (c as u32) < 128 ==> r == ascii_letter(c),
        (c as u32) >= 128 ==> r == unicode_alphabetic(c),
{
    c.is_alphabetic()
}

/// The characters that may make up an identifier.
pub open spec fn identifier_letter(c: char) -> bool {
    alphabetic(c) || c == '_' || c == '?' || c == '!'
}

/// Whether two texts hold the same characters.
fn same_text(a: &str, b: &str) -> (r: bool)
    ensures
        r == (a@ == b@),
{
    let n = a.unicode_len();
    if n != b.unicode_len() {
        return false;
    }
    let mut i: usize = 0;
    while i < n
        invariant
            n == a@.len(),
            n == b@.len(),
            i <= n,
            forall|j: int| 0 <= j < i ==> a@[j] == b@[j],
        decreases n - i,
    {
        if a.get_char(i) != b.get_char(i) {
            return false;
        }
        i = i + 1;
    }
    assert(a@ =~= b@);
    true
}

impl Token {
    /// Looks `word` up in the Keyword Table.
    pub fn keyword(word: &str) -> (r: Option<Token>)
        ensures
            r == keyword_token(word@),
    {
        proof {
            reveal_strlit("fn");
            reveal_strlit("let");
            reveal_strlit("true");
            reveal_strlit("false");
            reveal_strlit("if");
            reveal_strlit("else");
            reveal_strlit("return");
            assert("fn"@ =~= seq!['f', 'n']);
            assert("let"@ =~= seq!['l', 'e', 't']);
            assert("true"@ =~= seq!['t', 'r', 'u', 'e']);
            assert("false"@ =~= seq!['f', 'a', 'l', 's', 'e']);
            assert("if"@ =~= seq!['i', 'f']);
            assert("else"@ =~= seq!['e', 'l', 's', 'e']);
            assert("return"@ =~= seq!['r', 'e', 't', 'u', 'r', 'n']);
        }
        if same_text(word, "fn") {
            Some(Token::Function)
        } else if same_text(word, "let") {
            Some(Token::Let)
        } else if same_text(word, "true") {
            Some(Token::True)
        } else if same_text(word, "false") {
            Some(Token::False)
        } else if same_text(word, "if") {
            Some(Token::If)
        } else if same_text(word, "else") {
            Some(Token::Else)
        } else if same_text(word, "return") {
            Some(Token::Return)
        } else {
            None
        }
    }

    /// The token for a scanned word: its keyword, or else an identifier carrying it.
    pub fn new_ident(word: &str) -> (r: Token)
        ensures
            word_token(word@, r),
    {
        match Token::keyword(word) {
            Some(k) => k,
            None => Token::Ident(word.to_owned()),
        }
    }

    /// Whether `c` may continue an identifier.
    pub fn is_identifier_letter(c: char) -> (r: bool)
        ensures
            r == identifier_letter(c),
    {
        is_alphabetic(c) || c == '_' || c == '?' || c == '!'
    }
}

} // verus!
