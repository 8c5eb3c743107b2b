//! The scanner: a cursor over a borrowed source, pulled one token at a time.
use vstd::prelude::*;
use crate::grammar::{
    at_end, char_at, cursor_after, digits_end, digits_value, identifier_end,
    lemma_skip_whitespace_bounds, lemma_token_end_bounds, scan_result, scans_to, skip_whitespace,
    token_end, word_token,
};
use crate::token::{LexError, Token};

verus! {

/// A single-pass scanner over `input`, which it reads one character at a time.
pub struct Lexer<'a> {
    input: &'a str,
    length: usize,
    position: usize,
    read_position: usize,
    ch: Option<char>,
}

impl<'a> Lexer<'a> {
    /// The characters being scanned.
    pub closed spec fn source(&self) -> Seq<char> {
        self.input@
    }

    /// The offset of the current character; the length of the source once it is used up.
    pub closed spec fn cursor(&self) -> int {
        self.position as int
    }

    /// The cursor stays within the source, `ch` is the character under it (`None`
    /// past the end), and `read_position` is just past it.
    pub closed spec fn wf(&self) -> bool {
        &&& self.length == self.input@.len()
        &&& self.position <= self.length
        &&& self.ch == char_at(self.input@, self.position as int)
        &&& self.read_position == if self.position < self.length {
            self.position + 1
        } else {
            self.position as int
        }
    }

    /// The offset, in characters, of the next character to scan.
    pub fn position(&self) -> (r: usize)
        ensures
            r == self.cursor(),
    {
        self.position
    }

    /// A scanner over `input`, positioned on its first character.
    pub fn new(input: &'a str) -> (r: Self)
        ensures
            r.wf(),
            r.source() == input@,
            r.cursor() == 0,
    {
        let length = input.unicode_len();
        let mut lexer = Lexer { input, length, position: 0, read_position: 0, ch: None };
        lexer.read_char();
        lexer
    }

    /// Moves to the character at `read_position`.
    fn read_char(&mut self)
        requires
            old(self).length == old(self).input@.len(),
            old(self).read_position <= old(self).length,
        ensures
            final(self).wf(),
            final(self).input == old(self).input,
            final(self).position == old(self).read_position,
    {
        self.position = self.read_position;
        if self.read_position < self.length {
            self.ch = Some(self.input.get_char(self.read_position));
            self.read_position = self.read_position + 1;
        } else {
            self.ch = None;
        }
    }

    /// The character after the current one, without moving.
    fn peak_char(&self) -> (r: Option<char>)
        requires
            self.wf(),
        ensures
            r == char_at(self.source(), self.cursor() + 1),
    {
        if self.read_position < self.length {
            Some(self.input.get_char(self.read_position))
        } else {
            None
        }
    }

    /// Moves past the run of whitespace under the cursor.
    fn skip_whitespace(&mut self)
        requires
            old(self).wf(),
        ensures
            final(self).wf(),
            final(self).input == old(self).input,
            final(self).cursor() == skip_whitespace(old(self).source(), old(self).cursor()),
    {
        let ghost input = self.input;
        let ghost s = self.input@;
        let ghost target = skip_whitespace(s, self.position as int);
        loop
            invariant
                self.wf(),
                self.input == input,
                self.input@ == s,
                skip_whitespace(s, self.position as int) == target,
            ensures
                self.wf(),
                self.input == input,
                self.input@ == s,
                self.position == target,
            decreases self.length - self.position,
        {
            match self.ch {
                Some(c) if c == ' ' || c == '\t' || c == '\n' || c == '\r' => self.read_char(),
                _ => break,
            }
        }
    }

    /// Scans one token, which the Keyword Table may turn into a keyword; end of input
    /// is `Eof` on every later call, and a run of digits too large for the integer
    /// literal is an error.
    pub fn next_token(&mut self) -> (r: Result<Token, LexError>)
        requires
            old(self).wf(),
        ensures
            final(self).wf(),
            final(self).source() == old(self).source(),
            scan_result(old(self).source(), old(self).cursor(), r),
            final(self).cursor() == token_end(old(self).source(), old(self).cursor()),
    {
        proof {
            lemma_skip_whitespace_bounds(self.input@, self.position as int);
        }
        self.skip_whitespace();
        let c = match self.ch {
            None => return Ok(Token::Eof),
            Some(c) => c,
        };
        let tok = if c == '=' {
            match self.peak_char() {
                Some('=') => {
                    self.read_char();
                    Token::EQ
                },
                _ => Token::Assign,
            }
        } else if c == '!' {
            match self.peak_char() {
                Some('=') => {
                    self.read_char();
                    Token::NotEQ
                },
                _ => Token::Bang,
            }
        } else if c == ';' {
            Token::Semicolon
        } else if c == ',' {
            Token::Comma
        } else if c == '+' {
            Token::Plus
        } else if c == '-' {
            Token::Minus
        } else if c == '*' {
            Token::Asterisk
        } else if c == '/' {
            Token::Slash
        } else if c == '<' {
            Token::LT
        } else if c == '>' {
            Token::GT
        } else if c == '(' {
            Token::LParen
        } else if c == ')' {
            Token::RParen
        } else if c == '{' {
            Token::LBrace
        } else if c == '}' {
            Token::RBrace
        } else if Token::is_identifier_letter(c) {
            return Ok(self.read_identifier());
        } else if '0' as u32 <= c as u32 && c as u32 <= '9' as u32 {
            return self.read_integer();
        } else {
            Token::Illegal
        };
        self.read_char();
        Ok(tok)
    }

    /// The token stream as a finite sequence: `None` in place of the end-of-input token.
    pub fn next(&mut self) -> (r: Result<Option<Token>, LexError>)
        requires
            old(self).wf(),
        ensures
            final(self).wf(),
            final(self).source() == old(self).source(),
            final(self).cursor() == token_end(old(self).source(), old(self).cursor()),
            r == Ok::<Option<Token>, LexError>(None) <==> at_end(old(self).source(), old(self).cursor()),
            r matches Ok(Some(t)) ==> scan_result(old(self).source(), old(self).cursor(), Ok(t)),
            r matches Err(e) ==> scan_result(old(self).source(), old(self).cursor(), Err(e)),
    {
        match self.next_token() {
            Ok(Token::Eof) => Ok(None),
            Ok(t) => Ok(Some(t)),
            Err(e) => Err(e),
        }
    }

    /// Scans every token left, up to end of input, which it leaves out; fails with
    /// the first error met on the way.
    pub fn tokens(&mut self) -> (r: Result<Vec<Token>, LexError>)
        requires
            old(self).wf(),
        ensures
            final(self).wf(),
            final(self).source() == old(self).source(),
            r matches Ok(v) ==> {
                &&& scans_to(old(self).source(), old(self).cursor(), v@)
                &&& at_end(old(self).source(), cursor_after(old(self).source(), old(self).cursor(), v.len() as nat))
                &&& final(self).cursor() == old(self).source().len()
            },
            r matches Err(e) ==> exists|toks: Seq<Token>| {
                &&& scans_to(old(self).source(), old(self).cursor(), toks)
                &&& scan_result(old(self).source(), cursor_after(old(self).source(), old(self).cursor(), toks.len()), Err(e))
            },
    {
        let ghost s = self.input@;
        let ghost p = self.position as int;
        let mut v: Vec<Token> = Vec::new();
        loop
            invariant
                self.wf(),
                self.input@ == s,
                s == old(self).input@,
                p == old(self).position,
                self.position == cursor_after(s, p, v.len() as nat),
                scans_to(s, p, v@),
            decreases self.length - self.position,
        {
            proof {
                lemma_token_end_bounds(s, self.position as int);
            }
            let ghost n = v.len() as nat;
            match self.next() {
                Ok(Some(t)) => {
                    let ghost before = v@;
                    let ghost token = t;
                    v.push(t);
                    assert(cursor_after(s, p, n + 1) == token_end(s, cursor_after(s, p, n)));
                    assert(v@ =~= before.push(token));
                },
                Ok(None) => return Ok(v),
                Err(e) => {
                    assert(scans_to(old(self).source(), old(self).cursor(), v@));
                    return Err(e);
                },
            }
        }
    }

    /// Scans the identifier or keyword that starts under the cursor.
    fn read_identifier(&mut self) -> (r: Token)
        requires
            old(self).wf(),
        ensures
            final(self).wf(),
            final(self).input == old(self).input,
            final(self).cursor() == identifier_end(old(self).source(), old(self).cursor()),
            word_token(old(self).source().subrange(old(self).cursor(), final(self).cursor()), r),
    {
        let ghost input = self.input;
        let ghost s = self.input@;
        let ghost target = identifier_end(s, self.position as int);
        let position = self.position;
        loop
            invariant
                self.wf(),
                self.input == input,
                self.input@ == s,
                position <= self.position,
                identifier_end(s, self.position as int) == target,
            ensures
                self.wf(),
                self.input == input,
                position <= self.position,
                self.position == target,
            decreases self.length - self.position,
        {
            match self.ch {
                Some(c) if Token::is_identifier_letter(c) => self.read_char(),
                _ => break,
            }
        }
        Token::new_ident(self.input.substring_char(position, self.position))
    }

    /// Scans the integer literal that starts under the cursor.
    fn read_integer(&mut self) -> (r: Result<Token, LexError>)
        requires
            old(self).wf(),
        ensures
            final(self).wf(),
            final(self).input == old(self).input,
            final(self).cursor() == digits_end(old(self).source(), old(self).cursor()),
            ({
                let v = digits_value(
                    old(self).source().subrange(old(self).cursor(), final(self).cursor()),
                );
                if v <= i32::MAX {
                    r == Ok::<Token, LexError>(Token::Int(v as i32))
                } else {
                    r == Err::<Token, LexError>(LexError::IntegerTooLarge)
                }
            }),
    {
        let ghost input = self.input;
        let ghost s = self.input@;
        let ghost target = digits_end(s, self.position as int);
        let position = self.position;
        let mut value: i32 = 0;
        let mut too_large = false;
        loop
            invariant
                self.wf(),
                self.input == input,
                self.input@ == s,
                position <= self.position,
                digits_end(s, self.position as int) == target,
                0 <= value,
                !too_large ==> value == digits_value(s.subrange(position as int, self.position as int)),
                too_large ==> digits_value(s.subrange(position as int, self.position as int)) > i32::MAX,
            ensures
                self.wf(),
                self.input == input,
                position <= self.position,
                self.position == target,
                !too_large ==> value == digits_value(s.subrange(position as int, self.position as int)),
                too_large ==> digits_value(s.subrange(position as int, self.position as int)) > i32::MAX,
            decreases self.length - self.position,
        {
            match self.ch {
                Some(c) if '0' as u32 <= c as u32 && c as u32 <= '9' as u32 => {
                    let digit = (c as u32 - '0' as u32) as i32;
                    let ghost before = s.subrange(position as int, self.position as int);
                    let ghost after = s.subrange(position as int, self.position + 1);
                    assert(after.drop_last() =~= before);
                    assert(after.last() == c);
                    assert(digits_value(after) == digits_value(before) * 10 + digit);
                    if !too_large {
                        match value.checked_mul(10) {
                            Some(tens) => match tens.checked_add(digit) {
                                Some(next) => value = next,
                                None => too_large = true,
                            },
                            None => too_large = true,
                        }
                    }
                    self.read_char();
                },
                _ => break,
            }
        }
        if too_large {
            Err(LexError::IntegerTooLarge)
        } else {
            Ok(Token::Int(value))
        }
    }
}

} // verus!
