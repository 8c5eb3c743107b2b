//! What scanning means, over the source as a sequence of characters.
use vstd::prelude::*;
use crate::token::{identifier_letter, LexError, Token};

verus! {

/// The characters skipped between tokens.
pub open spec fn whitespace(c: char) -> bool {
    c == ' ' || c == '\t' || c == '\n' || c == '\r'
}

/// The digits `0` to `9`.
pub open spec fn decimal_digit(c: char) -> bool {
    '0' as u32 <= c as u32 <= '9' as u32
}

/// The character at offset `p`, or `None` past the end of the source.
pub open spec fn char_at(s: Seq<char>, p: int) -> Option<char> {
    if 0 <= p < s.len() {
        Some(s[p])
    } else {
        None
    }
}

/// The offset of the first character at or after `p` that is not whitespace.
pub open spec fn skip_whitespace(s: Seq<char>, p: int) -> int
    decreases s.len() - p,
{
    if 0 <= p < s.len() && whitespace(s[p]) {
        skip_whitespace(s, p + 1)
    } else {
        p
    }
}

/// The end of the run of identifier letters that starts at `p`.
pub open spec fn identifier_end(s: Seq<char>, p: int) -> int
    decreases s.len() - p,
{
    if 0 <= p < s.len() && identifier_letter(s[p]) {
        identifier_end(s, p + 1)
    } else {
        p
    }
}

/// The end of the run of decimal digits that starts at `p`.
pub open spec fn digits_end(s: Seq<char>, p: int) -> int
    decreases s.len() - p,
{
    if 0 <= p < s.len() && decimal_digit(s[p]) {
        digits_end(s, p + 1)
    } else {
        p
    }
}

/// The number that a run of decimal digits writes.
pub open spec fn digits_value(w: Seq<char>) -> int
    decreases w.len(),
{
    if w.len() == 0 {
        0
    } else {
        digits_value(w.drop_last()) * 10 + (w.last() as u32 - '0' as u32)
    }
}

/// The Keyword Table: the reserved words and their tokens.
pub open spec fn keyword_token(w: Seq<char>) -> Option<Token> {
    if w == seq!['f', 'n'] {
        Some(Token::Function)
    } else if w == seq!['l', 'e', 't'] {
        Some(Token::Let)
    } else if w == seq!['t', 'r', 'u', 'e'] {
        Some(Token::True)
    } else if w == seq!['f', 'a', 'l', 's', 'e'] {
        Some(Token::False)
    } else if w == seq!['i', 'f'] {
        Some(Token::If)
    } else if w == seq!['e', 'l', 's', 'e'] {
        Some(Token::Else)
    } else if w == seq!['r', 'e', 't', 'u', 'r', 'n'] {
        Some(Token::Return)
    } else {
        None
    }
}

/// The operator or delimiter that starts with `c`, given the character after it,
/// with its width; `==` and `!=` win over `=` and `!`.
pub open spec fn symbol(c: char, next: Option<char>) -> Option<(Token, int)> {
    if c == '=' {
        if next == Some('=') { Some((Token::EQ, 2)) } else { Some((Token::Assign, 1)) }
    } else if c == '!' {
        if next == Some('=') { Some((Token::NotEQ, 2)) } else { Some((Token::Bang, 1)) }
    } else if c == ';' {
        Some((Token::Semicolon, 1))
    } else if c == ',' {
        Some((Token::Comma, 1))
    } else if c == '+' {
        Some((Token::Plus, 1))
    } else if c == '-' {
        Some((Token::Minus, 1))
    } else if c == '*' {
        Some((Token::Asterisk, 1))
    } else if c == '/' {
        Some((Token::Slash, 1))
    } else if c == '<' {
        Some((Token::LT, 1))
    } else if c == '>' {
        Some((Token::GT, 1))
    } else if c == '(' {
        Some((Token::LParen, 1))
    } else if c == ')' {
        Some((Token::RParen, 1))
    } else if c == '{' {
        Some((Token::LBrace, 1))
    } else if c == '}' {
        Some((Token::RBrace, 1))
    } else {
        None
    }
}

/// Whether only whitespace is left from `p` on.
pub open spec fn at_end(s: Seq<char>, p: int) -> bool {
    skip_whitespace(s, p) >= s.len()
}

/// What a word of identifier letters scans to: its keyword, or an identifier
/// carrying its text.
pub open spec fn word_token(w: Seq<char>, r: Token) -> bool {
    match keyword_token(w) {
        Some(k) => r == k,
        None => r matches Token::Ident(name) && name@ == w,
    }
}

/// Whether `r` is the outcome of scanning `s` from offset `p`.
pub open spec fn scan_result(s: Seq<char>, p: int, r: Result<Token, LexError>) -> bool {
    let q = skip_whitespace(s, p);
    if q >= s.len() {
        r == Ok::<Token, LexError>(Token::Eof)
    } else {
        match symbol(s[q], char_at(s, q + 1)) {
            Some((t, _)) => r == Ok::<Token, LexError>(t),
            None => if identifier_letter(s[q]) {
                r matches Ok(t) && word_token(s.subrange(q, identifier_end(s, q)), t)
            } else if decimal_digit(s[q]) {
                let v = digits_value(s.subrange(q, digits_end(s, q)));
                if v <= i32::MAX {
                    r == Ok::<Token, LexError>(Token::Int(v as i32))
                } else {
                    r == Err::<Token, LexError>(LexError::IntegerTooLarge)
                }
            } else {
                r == Ok::<Token, LexError>(Token::Illegal)
            },
        }
    }
}

/// The offset that scanning one token from `p` leaves the cursor at.
pub open spec fn token_end(s: Seq<char>, p: int) -> int {
    let q = skip_whitespace(s, p);
    if q >= s.len() {
        q
    } else {
        match symbol(s[q], char_at(s, q + 1)) {
            Some((_, width)) => q + width,
            None => if identifier_letter(s[q]) {
                identifier_end(s, q)
            } else if decimal_digit(s[q]) {
                digits_end(s, q)
            } else {
                q + 1
            },
        }
    }
}

/// The cursor after `n` tokens scanned from offset `p`.
pub open spec fn cursor_after(s: Seq<char>, p: int, n: nat) -> int
    decreases n,
{
    if n == 0 {
        p
    } else {
        token_end(s, cursor_after(s, p, (n - 1) as nat))
    }
}

/// Whether `toks` are the tokens scanned one after another from offset `p`, none
/// of them the end of input.
pub open spec fn scans_to(s: Seq<char>, p: int, toks: Seq<Token>) -> bool {
    &&& forall|i: int| 0 <= i < toks.len() ==> !at_end(s, #[trigger] cursor_after(s, p, i as nat))
    &&& forall|i: int|
        0 <= i < toks.len() ==> scan_result(s, cursor_after(s, p, i as nat), Ok(#[trigger] toks[i]))
}

/// The text consumed by the first `n` tokens scanned from the start, whitespace
/// included, span after span.
pub open spec fn consumed(s: Seq<char>, n: nat) -> Seq<char>
    decreases n,
{
    if n == 0 {
        Seq::empty()
    } else {
        consumed(s, (n - 1) as nat) + s.subrange(
            cursor_after(s, 0, (n - 1) as nat),
            cursor_after(s, 0, n),
        )
    }
}

/// Skipping whitespace stays within the source and passes only whitespace.
pub proof fn lemma_skip_whitespace_bounds(s: Seq<char>, p: int)
    requires
        0 <= p <= s.len(),
    ensures
        p <= skip_whitespace(s, p) <= s.len(),
        forall|i: int| p <= i < skip_whitespace(s, p) ==> whitespace(#[trigger] s[i]),
    decreases s.len() - p,
{
    if p < s.len() && whitespace(s[p]) {
        lemma_skip_whitespace_bounds(s, p + 1);
    }
}

/// A word stays within the source and holds only identifier letters.
pub proof fn lemma_identifier_end_bounds(s: Seq<char>, p: int)
    requires
        0 <= p <= s.len(),
    ensures
        p <= identifier_end(s, p) <= s.len(),
        forall|i: int| p <= i < identifier_end(s, p) ==> identifier_letter(#[trigger] s[i]),
    decreases s.len() - p,
{
    if p < s.len() && identifier_letter(s[p]) {
        lemma_identifier_end_bounds(s, p + 1);
    }
}

/// A run of digits stays within the source and holds only digits.
pub proof fn lemma_digits_end_bounds(s: Seq<char>, p: int)
    requires
        0 <= p <= s.len(),
    ensures
        p <= digits_end(s, p) <= s.len(),
        forall|i: int| p <= i < digits_end(s, p) ==> decimal_digit(#[trigger] s[i]),
    decreases s.len() - p,
{
    if p < s.len() && decimal_digit(s[p]) {
        lemma_digits_end_bounds(s, p + 1);
    }
}

/// One token moves the cursor forward and never past the end; it moves strictly
/// forward unless only whitespace was left.
pub proof fn lemma_token_end_bounds(s: Seq<char>, p: int)
    requires
        0 <= p <= s.len(),
    ensures
        p <= token_end(s, p) <= s.len(),
        !at_end(s, p) ==> p < token_end(s, p),
        at_end(s, p) ==> token_end(s, p) == s.len(),
{
    let q = skip_whitespace(s, p);
    lemma_skip_whitespace_bounds(s, p);
    if q < s.len() {
        lemma_identifier_end_bounds(s, q + 1);
        lemma_digits_end_bounds(s, q + 1);
    }
}

} // verus!
