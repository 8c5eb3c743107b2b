//! Properties of scanning as a whole, stated over the grammar that `Lexer::next_token`
//! follows step by step.
use vstd::prelude::*;
use crate::grammar::{
    at_end, char_at, consumed, cursor_after, identifier_end, keyword_token, lemma_skip_whitespace_bounds,
    lemma_token_end_bounds, scan_result, skip_whitespace, token_end,
};
use crate::token::{alphabetic, identifier_letter, LexError, Token};

verus! {

/// Tokens are scanned left to right with no gap: the spans that the first `n`
/// tokens consume, whitespace included, put together are the source up to the
/// cursor; and the call that meets the end of input completes the whole source.
pub proof fn lemma_spans_rebuild_source(s: Seq<char>, n: nat)
    ensures
        0 <= cursor_after(s, 0, n) <= s.len(),
        cursor_after(s, 0, n) <= cursor_after(s, 0, n + 1),
        consumed(s, n) == s.subrange(0, cursor_after(s, 0, n)),
        at_end(s, cursor_after(s, 0, n)) ==> consumed(s, n + 1) == s,
    decreases n,
{
    if n > 0 {
        lemma_spans_rebuild_source(s, (n - 1) as nat);
        let a = cursor_after(s, 0, (n - 1) as nat);
        let b = cursor_after(s, 0, n);
        lemma_token_end_bounds(s, a);
        assert(s.subrange(0, a) + s.subrange(a, b) =~= s.subrange(0, b));
    }
    let c = cursor_after(s, 0, n);
    lemma_token_end_bounds(s, c);
    assert(s.subrange(0, c) + s.subrange(c, token_end(s, c)) =~= s.subrange(0, token_end(s, c)));
    assert(cursor_after(s, 0, n + 1) == token_end(s, c));
    assert(consumed(s, n + 1) == consumed(s, n) + s.subrange(c, token_end(s, c)));
    assert(s.subrange(0, s.len() as int) =~= s);
}

proof fn lemma_cursor_progress(s: Seq<char>, n: nat)
    ensures
        n <= cursor_after(s, 0, n) || at_end(s, cursor_after(s, 0, n)),
    decreases n,
{
    if n > 0 {
        lemma_cursor_progress(s, (n - 1) as nat);
        lemma_spans_rebuild_source(s, (n - 1) as nat);
        let c = cursor_after(s, 0, (n - 1) as nat);
        lemma_token_end_bounds(s, c);
        if at_end(s, c) {
            lemma_skip_whitespace_bounds(s, s.len() as int);
        }
    }
}

/// Each token before the end of input consumes at least one character, so the end
/// of input is met within as many scans as the source has characters.
pub proof fn lemma_end_is_reached(s: Seq<char>)
    ensures
        at_end(s, cursor_after(s, 0, s.len())),
{
    let c = cursor_after(s, 0, s.len());
    lemma_cursor_progress(s, s.len());
    lemma_spans_rebuild_source(s, s.len());
    if s.len() <= c {
        lemma_skip_whitespace_bounds(s, c);
    }
}

/// Once only whitespace is left, every later scan gives the end-of-input token and
/// leaves the cursor at the end of the source.
pub proof fn lemma_end_is_final(s: Seq<char>, p: int, n: nat, r: Result<Token, LexError>)
    requires
        0 <= p <= s.len(),
        at_end(s, p),
    ensures
        n > 0 ==> cursor_after(s, p, n) == s.len(),
        at_end(s, cursor_after(s, p, n)),
        scan_result(s, cursor_after(s, p, n), r) <==> r == Ok::<Token, LexError>(Token::Eof),
    decreases n,
{
    if n > 0 {
        lemma_end_is_final(s, p, (n - 1) as nat, r);
        let c = cursor_after(s, p, (n - 1) as nat);
        lemma_skip_whitespace_bounds(s, p);
        assert(0 <= c <= s.len());
        lemma_token_end_bounds(s, c);
    }
    lemma_skip_whitespace_bounds(s, cursor_after(s, p, n));
}

/// After skipping whitespace, `=` and `!` followed by `=` are one token of two
/// characters, equality and not-equal; not followed by `=` they are assignment and
/// bang, one character each.
pub proof fn lemma_two_character_operators(s: Seq<char>, p: int, r: Result<Token, LexError>)
    requires
        0 <= p <= s.len(),
        skip_whitespace(s, p) < s.len(),
        s[skip_whitespace(s, p)] == '=' || s[skip_whitespace(s, p)] == '!',
    ensures
        ({
            let q = skip_whitespace(s, p);
            let doubled = char_at(s, q + 1) == Some('=');
            &&& token_end(s, p) == if doubled { q + 2 } else { q + 1 }
            &&& s[q] == '=' ==> (scan_result(s, p, r) <==> r == Ok::<Token, LexError>(
                if doubled { Token::EQ } else { Token::Assign },
            ))
            &&& s[q] == '!' ==> (scan_result(s, p, r) <==> r == Ok::<Token, LexError>(
                if doubled { Token::NotEQ } else { Token::Bang },
            ))
        }),
{
}

proof fn lemma_word_runs_to_end(w: Seq<char>, p: int)
    requires
        0 <= p <= w.len(),
        forall|i: int| p <= i < w.len() ==> identifier_letter(#[trigger] w[i]),
    ensures
        identifier_end(w, p) == w.len(),
    decreases w.len() - p,
{
    if p < w.len() {
        lemma_word_runs_to_end(w, p + 1);
    }
}

/// Scanning a word of alphabetic characters on its own consumes all of it and gives
/// its keyword when it is a reserved word, else an identifier carrying exactly it.
pub proof fn lemma_word_alone(w: Seq<char>, r: Result<Token, LexError>)
    requires
        w.len() > 0,
        forall|i: int| 0 <= i < w.len() ==> alphabetic(#[trigger] w[i]),
    ensures
        token_end(w, 0) == w.len(),
        scan_result(w, 0, r) <==> match keyword_token(w) {
            Some(k) => r == Ok::<Token, LexError>(k),
            None => r matches Ok(Token::Ident(name)) && name@ == w,
        },
{
    assert(alphabetic(w[0]));
    assert(skip_whitespace(w, 0) == 0);
    lemma_word_runs_to_end(w, 0);
    assert(w.subrange(0, w.len() as int) =~= w);
}

/// Every reserved word of the Keyword Table, scanned on its own, gives its keyword
/// token and consumes the whole word.
pub proof fn lemma_keyword_alone(w: Seq<char>, r: Result<Token, LexError>)
    requires
        keyword_token(w) is Some,
    ensures
        token_end(w, 0) == w.len(),
        scan_result(w, 0, r) <==> r == Ok::<Token, LexError>(keyword_token(w)->0),
{
    assert forall|i: int| 0 <= i < w.len() implies alphabetic(#[trigger] w[i]) by {
        assert(w[i] == 'f' || w[i] == 'n' || w[i] == 'l' || w[i] == 'e' || w[i] == 't' || w[i]
            == 'r' || w[i] == 'u' || w[i] == 'a' || w[i] == 's' || w[i] == 'i');
    }
    lemma_word_alone(w, r);
}

} // verus!
