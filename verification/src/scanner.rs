//! The lexical scanner: turns source text into a stream of tokens, one per
//! call, with a terminal `Eof` token repeated at the end of the source.
//!
//! The meaning of a scan is given by `spec_scan_token`, a mathematical
//! transition function over the source characters; `scan_token` is proved to
//! produce exactly the token, position and line it prescribes.  Offsets are
//! character offsets, so the scanner is safe on any UTF-8 text.

use vstd::prelude::*;

use crate::token::{Token, TokenType};

verus! {

/// The character at `pos`, or NUL when `pos` is past the end: the scanner's
/// lookahead convention.
pub open spec fn char_at(s: Seq<char>, pos: nat) -> char {
    if pos < s.len() {
        s[pos as int]
    } else {
        '\0'
    }
}

/// Whether `c` is an ASCII decimal digit.
pub open spec fn is_digit_char(c: char) -> bool {
    ('0' as u32) <= (c as u32) && (c as u32) <= ('9' as u32)
}

/// Whether `c` is an ASCII letter or underscore.
pub open spec fn is_alpha_char(c: char) -> bool {
    (('a' as u32) <= (c as u32) && (c as u32) <= ('z' as u32)) || (('A' as u32) <= (c as u32) && (
    c as u32) <= ('Z' as u32)) || c == '_'
}

/// The line counter after one more newline.  It sticks at `usize::MAX`
/// rather than wrapping; no real source reaches that many lines.
pub open spec fn next_line(l: nat) -> nat {
    if l >= usize::MAX {
        l
    } else {
        l + 1
    }
}

/// Where scanning stands after skipping whitespace and line comments from
/// `pos`: the first position of interest and the line counter after the
/// newlines passed over.  `in_comment` says that a `//` comment is open, to
/// be skipped through its terminating newline.
pub open spec fn skip_ws(s: Seq<char>, pos: nat, line: nat, in_comment: bool) -> (nat, nat)
    decreases s.len() - pos,
{
    if pos >= s.len() {
        (pos, line)
    } else if in_comment {
        if s[pos as int] == '\n' {
            skip_ws(s, pos + 1, next_line(line), false)
        } else {
            skip_ws(s, pos + 1, line, true)
        }
    } else {
        let c = s[pos as int];
        if c == ' ' || c == '\r' || c == '\t' {
            skip_ws(s, pos + 1, line, false)
        } else if c == '\n' {
            skip_ws(s, pos + 1, next_line(line), false)
        } else if c == '/' && char_at(s, pos + 1) == '/' {
            skip_ws(s, pos + 2, line, true)
        } else {
            (pos, line)
        }
    }
}

/// The first position at or after `pos` that holds no digit.
pub open spec fn digits_end(s: Seq<char>, pos: nat) -> nat
    decreases s.len() - pos,
{
    if pos < s.len() && is_digit_char(s[pos as int]) {
        digits_end(s, pos + 1)
    } else {
        pos
    }
}

/// The first position at or after `pos` that holds neither a letter, a
/// digit, nor an underscore.
pub open spec fn ident_end(s: Seq<char>, pos: nat) -> nat
    decreases s.len() - pos,
{
    if pos < s.len() && (is_alpha_char(s[pos as int]) || is_digit_char(s[pos as int])) {
        ident_end(s, pos + 1)
    } else {
        pos
    }
}

/// Where a number literal whose integer digits start at `pos` ends: its
/// digits, then a fractional part only when a dot is followed by a digit.
pub open spec fn number_end(s: Seq<char>, pos: nat) -> nat {
    let p1 = digits_end(s, pos);
    if char_at(s, p1) == '.' && is_digit_char(char_at(s, p1 + 1)) {
        digits_end(s, p1 + 1)
    } else {
        p1
    }
}

/// Where the scan of a string literal body starting at `pos` stops — at the
/// closing quote, or at the end of an unterminated source — and the line
/// counter after the newlines the literal spans.
pub open spec fn string_end(s: Seq<char>, pos: nat, line: nat) -> (nat, nat)
    decreases s.len() - pos,
{
    if pos >= s.len() {
        (pos, line)
    } else if s[pos as int] == '"' {
        (pos, line)
    } else if s[pos as int] == '\n' {
        string_end(s, pos + 1, next_line(line))
    } else {
        string_end(s, pos + 1, line)
    }
}

/// The kind of the word `lex`: its keyword when it is one, else an
/// identifier.
pub open spec fn keyword(lex: Seq<char>) -> TokenType {
    if lex == "and"@ {
        TokenType::And
    } else if lex == "class"@ {
        TokenType::Class
    } else if lex == "else"@ {
        TokenType::Else
    } else if lex == "false"@ {
        TokenType::False
    } else if lex == "for"@ {
        TokenType::For
    } else if lex == "fun"@ {
        TokenType::Fun
    } else if lex == "if"@ {
        TokenType::If
    } else if lex == "nil"@ {
        TokenType::Nil
    } else if lex == "or"@ {
        TokenType::Or
    } else if lex == "print"@ {
        TokenType::Print
    } else if lex == "return"@ {
        TokenType::Return
    } else if lex == "super"@ {
        TokenType::Super
    } else if lex == "this"@ {
        TokenType::This
    } else if lex == "true"@ {
        TokenType::True
    } else if lex == "var"@ {
        TokenType::Var
    } else if lex == "while"@ {
        TokenType::While
    } else {
        TokenType::Identifier
    }
}

/// What one scan step yields: the token's kind, its span `start..end` in
/// the source, the line it is reported on, its message (for `Error`
/// tokens), with `end` doubling as the scanner's next position.
pub struct ScanStep {
    pub ttype: TokenType,
    pub start: nat,
    pub end: nat,
    pub line: nat,
    pub message: Seq<char>,
}

/// A one-character token at `pos`.
pub open spec fn single_step(ttype: TokenType, pos: nat, line: nat) -> ScanStep {
    ScanStep { ttype, start: pos, end: pos + 1, line, message: Seq::<char>::empty() }
}

/// A one- or two-character token at `pos`: `two` when the character after
/// it is `=`, `one` otherwise.
pub open spec fn pair_step(
    s: Seq<char>,
    one: TokenType,
    two: TokenType,
    pos: nat,
    line: nat,
) -> ScanStep {
    if char_at(s, pos + 1) == '=' {
        ScanStep { ttype: two, start: pos, end: pos + 2, line, message: Seq::<char>::empty() }
    } else {
        single_step(one, pos, line)
    }
}

/// The scanner's transition function: from position `pos0` on line `line0`,
/// skip whitespace and comments, then scan exactly one token.  At the end
/// of the source the token is `Eof`, empty, so further scans yield `Eof`
/// forever; an unterminated string or an unrecognized character yields an
/// `Error` token carrying a static message.
pub open spec fn spec_scan_token(s: Seq<char>, pos0: nat, line0: nat) -> ScanStep {
    let w = skip_ws(s, pos0, line0, false);
    let pos = w.0;
    let line = w.1;
    if pos >= s.len() {
        ScanStep {
            ttype: TokenType::Eof,
            start: pos,
            end: pos,
            line,
            message: Seq::<char>::empty(),
        }
    } else {
        let c = s[pos as int];
        if is_alpha_char(c) {
            let e = ident_end(s, pos + 1);
            ScanStep {
                ttype: keyword(s.subrange(pos as int, e as int)),
                start: pos,
                end: e,
                line,
                message: Seq::<char>::empty(),
            }
        } else if is_digit_char(c) {
            let e = number_end(s, pos + 1);
            ScanStep {
                ttype: TokenType::NumberLiteral,
                start: pos,
                end: e,
                line,
                message: Seq::<char>::empty(),
            }
        } else if c == '(' {
            single_step(TokenType::LeftParen, pos, line)
        } else if c == ')' {
            single_step(TokenType::RightParen, pos, line)
        } else if c == '{' {
            single_step(TokenType::LeftBrace, pos, line)
        } else if c == '}' {
            single_step(TokenType::RightBrace, pos, line)
        } else if c == ';' {
            single_step(TokenType::Semicolon, pos, line)
        } else if c == ',' {
            single_step(TokenType::Comma, pos, line)
        } else if c == '.' {
            single_step(TokenType::Dot, pos, line)
        } else if c == '-' {
            single_step(TokenType::Minus, pos, line)
        } else if c == '+' {
            single_step(TokenType::Plus, pos, line)
        } else if c == '/' {
            single_step(TokenType::Slash, pos, line)
        } else if c == '*' {
            single_step(TokenType::Star, pos, line)
        } else if c == '!' {
            pair_step(s, TokenType::Bang, TokenType::BangEqual, pos, line)
        } else if c == '=' {
            pair_step(s, TokenType::Equal, TokenType::EqualEqual, pos, line)
        } else if c == '<' {
            pair_step(s, TokenType::Less, TokenType::LessEqual, pos, line)
        } else if c == '>' {
            pair_step(s, TokenType::Greater, TokenType::GreaterEqual, pos, line)
        } else if c == '"' {
            let r = string_end(s, pos + 1, line);
            if r.0 >= s.len() {
                ScanStep {
                    ttype: TokenType::Error,
                    start: pos,
                    end: r.0,
                    line: r.1,
                    message: "Unterminated string."@,
                }
            } else {
                ScanStep {
                    ttype: TokenType::StringLiteral,
                    start: pos,
                    end: r.0 + 1,
                    line: r.1,
                    message: Seq::<char>::empty(),
                }
            }
        } else {
            ScanStep {
                ttype: TokenType::Error,
                start: pos,
                end: pos + 1,
                line,
                message: "Unexpected character."@,
            }
        }
    }
}

/// Whether `c` is an ASCII decimal digit.
fn is_digit(c: char) -> (r: bool)
    ensures
        r == is_digit_char(c),
{
    let u = c as u32;
    48 <= u && u <= 57
}

/// Whether `c` is an ASCII letter or underscore.
fn is_alpha(c: char) -> (r: bool)
    ensures
        r == is_alpha_char(c),
{
    let u = c as u32;
    (97 <= u && u <= 122) || (65 <= u && u <= 90) || c == '_'
}

/// The scanner's observable state: the source characters, the start of the
/// token in progress, the current position, and the 1-based current line.
pub struct ScannerView {
    pub source: Seq<char>,
    pub start: nat,
    pub current: nat,
    pub line: nat,
}

/// The scanner.  It owns a copy of the source and walks it by character
/// offset, one token per `scan_token` call.
pub struct Scanner {
    text: String,
    chars: Vec<char>,
    start: usize,
    current: usize,
    line: usize,
}

impl View for Scanner {
    type V = ScannerView;

    closed spec fn view(&self) -> ScannerView {
        ScannerView {
            source: self.chars@,
            start: self.start as nat,
            current: self.current as nat,
            line: self.line as nat,
        }
    }
}

impl Scanner {
    /// The scanner's invariant: its text and character copies agree, and
    /// the token in progress lies within the source.
    pub closed spec fn wf(self) -> bool {
        &&& self.text@ == self.chars@
        &&& self.start <= self.current
        &&& self.current <= self.chars@.len()
    }

    /// A scanner at the start of `source`, on line 1.
    pub fn new(source: &String) -> (r: Self)
        ensures
            r.wf(),
            r@.source == source@,
            r@.start == 0,
            r@.current == 0,
            r@.line == 1,
    {
        let text = source.clone();
        let n = text.as_str().unicode_len();
        let mut chars: Vec<char> = Vec::new();
        let mut i: usize = 0;
        while i < n
            invariant
                n == text@.len(),
                i <= n,
                chars@ == text@.subrange(0, i as int),
            decreases n - i,
        {
            let c = text.as_str().get_char(i);
            chars.push(c);
            proof {
                assert(chars@ =~= text@.subrange(0, i + 1));
            }
            i = i + 1;
        }
        proof {
            assert(chars@ =~= text@);
        }
        Scanner { text, chars, start: 0, current: 0, line: 1 }
    }

    /// The character at `idx`.
    fn at(&self, idx: usize) -> (c: char)
        requires
            self.wf(),
            idx < self@.source.len(),
        ensures
            c == self@.source[idx as int],
    {
        self.chars[idx]
    }

    /// Whether the current position has reached the end of the source.
    fn is_at_end(&self) -> (r: bool)
        requires
            self.wf(),
        ensures
            r == (self@.current >= self@.source.len()),
    {
        self.current >= self.chars.len()
    }

    /// The character at the current position, NUL at the end.
    fn peek(&self) -> (c: char)
        requires
            self.wf(),
        ensures
            c == char_at(self@.source, self@.current),
    {
        if self.is_at_end() {
            '\0'
        } else {
            self.at(self.current)
        }
    }

    /// The character after the current position, NUL at or past the end.
    fn peek_next(&self) -> (c: char)
        requires
            self.wf(),
        ensures
            c == char_at(self@.source, self@.current + 1),
    {
        let n = self.chars.len();
        if self.current >= n {
            '\0'
        } else if self.current + 1 >= n {
            '\0'
        } else {
            self.at(self.current + 1)
        }
    }

    /// Consumes and returns the current character.
    fn advance(&mut self) -> (c: char)
        requires
            old(self).wf(),
            old(self)@.current < old(self)@.source.len(),
        ensures
            final(self).wf(),
            c == old(self)@.source[old(self)@.current as int],
            final(self)@.current == old(self)@.current + 1,
            final(self)@.source == old(self)@.source,
            final(self)@.start == old(self)@.start,
            final(self)@.line == old(self)@.line,
    {
        let n = self.chars.len();
        assert(self.current < n);
        let c = self.chars[self.current];
        self.current = self.current + 1;
        c
    }

    /// Advances the line counter; it sticks at `usize::MAX` rather than
    /// wrapping.
    fn bump_line(&mut self)
        ensures
            final(self).wf() == old(self).wf(),
            final(self)@.line == next_line(old(self)@.line),
            final(self)@.source == old(self)@.source,
            final(self)@.start == old(self)@.start,
            final(self)@.current == old(self)@.current,
    {
        if self.line < usize::MAX {
            self.line = self.line + 1;
        }
    }

    /// Consumes the current character only when it is `expected`.
    fn is_match(&mut self, expected: char) -> (r: bool)
        requires
            old(self).wf(),
        ensures
            final(self).wf(),
            final(self)@.source == old(self)@.source,
            final(self)@.start == old(self)@.start,
            final(self)@.line == old(self)@.line,
            r == (old(self)@.current < old(self)@.source.len() && old(self)@.source[old(
                self,
            )@.current as int] == expected),
            r ==> final(self)@.current == old(self)@.current + 1,
            !r ==> final(self)@.current == old(self)@.current,
    {
        let n = self.chars.len();
        if self.current >= n {
            return false;
        }
        if self.chars[self.current] != expected {
            return false;
        }
        self.current = self.current + 1;
        true
    }

    /// The token in progress, from its recorded start to the current
    /// position, as a `ttype` token on the current line.
    fn make_token(&self, ttype: TokenType) -> (t: Token)
        requires
            self.wf(),
        ensures
            t.token_type == ttype,
            t.start == self@.start,
            t.start + t.length == self@.current,
            t.line == self@.line,
            t.message@ == Seq::<char>::empty(),
    {
        Token::new(ttype, self.start, self.current - self.start, self.line)
    }

    /// An `Error` token spanning the token in progress, carrying `msg`.
    fn error_token(&self, msg: &'static str) -> (t: Token)
        requires
            self.wf(),
        ensures
            t.token_type == TokenType::Error,
            t.start == self@.start,
            t.start + t.length == self@.current,
            t.line == self@.line,
            t.message@ == msg@,
    {
        Token {
            token_type: TokenType::Error,
            start: self.start,
            length: self.current - self.start,
            line: self.line,
            message: msg,
        }
    }

    /// Skips whitespace and `//` line comments, counting the newlines.
    fn skip_whitespace(&mut self)
        requires
            old(self).wf(),
        ensures
            final(self).wf(),
            final(self)@.source == old(self)@.source,
            final(self)@.start == old(self)@.start,
            final(self)@.current == skip_ws(
                old(self)@.source,
                old(self)@.current,
                old(self)@.line,
                false,
            ).0,
            final(self)@.line == skip_ws(
                old(self)@.source,
                old(self)@.current,
                old(self)@.line,
                false,
            ).1,
    {
        loop
            invariant
                self.wf(),
                self@.source == old(self)@.source,
                self@.start == old(self)@.start,
                skip_ws(self@.source, self@.current, self@.line, false) == skip_ws(
                    old(self)@.source,
                    old(self)@.current,
                    old(self)@.line,
                    false,
                ),
            decreases self@.source.len() - self@.current,
        {
            let ghost c0 = self@.current;
            let c = self.peek();
            if c == ' ' || c == '\r' || c == '\t' {
                self.advance();
            } else if c == '\n' {
                self.bump_line();
                self.advance();
            } else if c == '/' && self.peek_next() == '/' {
                self.advance();
                self.advance();
                while self.peek() != '\n' && !self.is_at_end()
                    invariant
                        self.wf(),
                        c0 + 2 <= self@.current,
                        self@.source == old(self)@.source,
                        self@.start == old(self)@.start,
                        skip_ws(self@.source, self@.current, self@.line, true) == skip_ws(
                            old(self)@.source,
                            old(self)@.current,
                            old(self)@.line,
                            false,
                        ),
                    decreases self@.source.len() - self@.current,
                {
                    self.advance();
                }
                assert(skip_ws(self@.source, self@.current, self@.line, false) == skip_ws(
                    self@.source,
                    self@.current,
                    self@.line,
                    true,
                ));
            } else {
                return ;
            }
        }
    }

    /// The kind of the word `lex` matched against `rest`: `ttype` when the
    /// token in progress reads exactly `rest`, `Identifier` otherwise.
    fn check_keyword(&self, rest: &str, ttype: TokenType) -> (r: TokenType)
        requires
            self.wf(),
        ensures
            r == (if self@.source.subrange(self@.start as int, self@.current as int) == rest@ {
                ttype
            } else {
                TokenType::Identifier
            }),
    {
        let n = rest.unicode_len();
        let token_len = self.current - self.start;
        if token_len != n {
            assert(self@.source.subrange(self@.start as int, self@.current as int).len()
                != rest@.len());
            return TokenType::Identifier;
        }
        let mut i: usize = 0;
        while i < n
            invariant
                self.wf(),
                n == rest@.len(),
                self@.start + n == self@.current,
                i <= n,
                forall|j: int|
                    0 <= j < i ==> self@.source[self@.start + j] == rest@[j],
            decreases n - i,
        {
            if self.chars[self.start + i] != rest.get_char(i) {
                assert(self@.source.subrange(self@.start as int, self@.current as int)[i as int]
                    != rest@[i as int]);
                return TokenType::Identifier;
            }
            i = i + 1;
        }
        assert(self@.source.subrange(self@.start as int, self@.current as int) =~= rest@);
        ttype
    }

    /// The kind of the identifier in progress: a keyword where it reads as
    /// one, an identifier otherwise.
    fn identifier_type(&self) -> (r: TokenType)
        requires
            self.wf(),
        ensures
            r == keyword(self@.source.subrange(self@.start as int, self@.current as int)),
    {
        let mut r = self.check_keyword("and", TokenType::And);
        if r == TokenType::Identifier {
            r = self.check_keyword("class", TokenType::Class);
        }
        if r == TokenType::Identifier {
            r = self.check_keyword("else", TokenType::Else);
        }
        if r == TokenType::Identifier {
            r = self.check_keyword("false", TokenType::False);
        }
        if r == TokenType::Identifier {
            r = self.check_keyword("for", TokenType::For);
        }
        if r == TokenType::Identifier {
            r = self.check_keyword("fun", TokenType::Fun);
        }
        if r == TokenType::Identifier {
            r = self.check_keyword("if", TokenType::If);
        }
        if r == TokenType::Identifier {
            r = self.check_keyword("nil", TokenType::Nil);
        }
        if r == TokenType::Identifier {
            r = self.check_keyword("or", TokenType::Or);
        }
        if r == TokenType::Identifier {
            r = self.check_keyword("print", TokenType::Print);
        }
        if r == TokenType::Identifier {
            r = self.check_keyword("return", TokenType::Return);
        }
        if r == TokenType::Identifier {
            r = self.check_keyword("super", TokenType::Super);
        }
        if r == TokenType::Identifier {
            r = self.check_keyword("this", TokenType::This);
        }
        if r == TokenType::Identifier {
            r = self.check_keyword("true", TokenType::True);
        }
        if r == TokenType::Identifier {
            r = self.check_keyword("var", TokenType::Var);
        }
        if r == TokenType::Identifier {
            r = self.check_keyword("while", TokenType::While);
        }
        r
    }

    /// Whether the current character continues an identifier.
    fn peek_alnum(&self) -> (r: bool)
        requires
            self.wf(),
        ensures
            r == (is_alpha_char(char_at(self@.source, self@.current)) || is_digit_char(
                char_at(self@.source, self@.current),
            )),
    {
        let p = self.peek();
        is_alpha(p) || is_digit(p)
    }

    /// Scans the rest of an identifier whose first character was consumed.
    fn identifier(&mut self) -> (t: Token)
        requires
            old(self).wf(),
        ensures
            final(self).wf(),
            final(self)@.source == old(self)@.source,
            final(self)@.start == old(self)@.start,
            final(self)@.line == old(self)@.line,
            final(self)@.current == ident_end(old(self)@.source, old(self)@.current),
            t.token_type == keyword(
                old(self)@.source.subrange(old(self)@.start as int, final(self)@.current as int),
            ),
            t.start == old(self)@.start,
            t.start + t.length == final(self)@.current,
            t.line == old(self)@.line,
            t.message@ == Seq::<char>::empty(),
    {
        while self.peek_alnum()
            invariant
                self.wf(),
                self@.source == old(self)@.source,
                self@.start == old(self)@.start,
                self@.line == old(self)@.line,
                ident_end(self@.source, self@.current) == ident_end(
                    old(self)@.source,
                    old(self)@.current,
                ),
            decreases self@.source.len() - self@.current,
        {
            self.advance();
        }
        assert(ident_end(self@.source, self@.current) == self@.current);
        self.make_token(self.identifier_type())
    }

    /// Scans the rest of a number literal whose first digit was consumed.
    fn number(&mut self) -> (t: Token)
        requires
            old(self).wf(),
        ensures
            final(self).wf(),
            final(self)@.source == old(self)@.source,
            final(self)@.start == old(self)@.start,
            final(self)@.line == old(self)@.line,
            final(self)@.current == number_end(old(self)@.source, old(self)@.current),
            t.token_type == TokenType::NumberLiteral,
            t.start == old(self)@.start,
            t.start + t.length == final(self)@.current,
            t.line == old(self)@.line,
            t.message@ == Seq::<char>::empty(),
    {
        while is_digit(self.peek())
            invariant
                self.wf(),
                self@.source == old(self)@.source,
                self@.start == old(self)@.start,
                self@.line == old(self)@.line,
                digits_end(self@.source, self@.current) == digits_end(
                    old(self)@.source,
                    old(self)@.current,
                ),
            decreases self@.source.len() - self@.current,
        {
            self.advance();
        }
        if self.peek() == '.' && is_digit(self.peek_next()) {
            self.advance();
            let ghost frac = self@.current;
            while is_digit(self.peek())
                invariant
                    self.wf(),
                    self@.source == old(self)@.source,
                    self@.start == old(self)@.start,
                    self@.line == old(self)@.line,
                    digits_end(self@.source, self@.current) == digits_end(self@.source, frac),
                decreases self@.source.len() - self@.current,
            {
                self.advance();
            }
        }
        self.make_token(TokenType::NumberLiteral)
    }

    /// Scans the rest of a string literal whose opening quote was consumed:
    /// through the closing quote, or to an `Error` token when the source
    /// ends first.
    fn string(&mut self) -> (t: Token)
        requires
            old(self).wf(),
        ensures
            final(self).wf(),
            final(self)@.source == old(self)@.source,
            final(self)@.start == old(self)@.start,
            ({
                let r = string_end(old(self)@.source, old(self)@.current, old(self)@.line);
                &&& final(self)@.line == r.1
                &&& if r.0 >= old(self)@.source.len() {
                    &&& final(self)@.current == r.0
                    &&& t.token_type == TokenType::Error
                    &&& t.message@ == "Unterminated string."@
                } else {
                    &&& final(self)@.current == r.0 + 1
                    &&& t.token_type == TokenType::StringLiteral
                    &&& t.message@ == Seq::<char>::empty()
                }
                &&& t.start == old(self)@.start
                &&& t.start + t.length == final(self)@.current
                &&& t.line == r.1
            }),
    {
        while self.peek() != '"' && !self.is_at_end()
            invariant
                self.wf(),
                self@.source == old(self)@.source,
                self@.start == old(self)@.start,
                string_end(self@.source, self@.current, self@.line) == string_end(
                    old(self)@.source,
                    old(self)@.current,
                    old(self)@.line,
                ),
            decreases self@.source.len() - self@.current,
        {
            if self.peek() == '\n' {
                self.bump_line();
            }
            self.advance();
        }
        if self.is_at_end() {
            return self.error_token("Unterminated string.");
        }
        self.advance();
        self.make_token(TokenType::StringLiteral)
    }

    /// Scans and returns the next token, advancing past it.
    pub fn scan_token(&mut self) -> (t: Token)
        requires
            old(self).wf(),
        ensures
            final(self).wf(),
            final(self)@.source == old(self)@.source,
            ({
                let st = spec_scan_token(old(self)@.source, old(self)@.current, old(self)@.line);
                &&& t.token_type == st.ttype
                &&& t.start == st.start
                &&& t.start + t.length == st.end
                &&& t.line == st.line
                &&& t.message@ == st.message
                &&& final(self)@.current == st.end
                &&& final(self)@.line == st.line
            }),
    {
        self.skip_whitespace();
        self.start = self.current;
        if self.is_at_end() {
            return self.make_token(TokenType::Eof);
        }
        let c = self.advance();
        if is_alpha(c) {
            return self.identifier();
        }
        if is_digit(c) {
            return self.number();
        }
        if c == '(' {
            self.make_token(TokenType::LeftParen)
        } else if c == ')' {
            self.make_token(TokenType::RightParen)
        } else if c == '{' {
            self.make_token(TokenType::LeftBrace)
        } else if c == '}' {
            self.make_token(TokenType::RightBrace)
        } else if c == ';' {
            self.make_token(TokenType::Semicolon)
        } else if c == ',' {
            self.make_token(TokenType::Comma)
        } else if c == '.' {
            self.make_token(TokenType::Dot)
        } else if c == '-' {
            self.make_token(TokenType::Minus)
        } else if c == '+' {
            self.make_token(TokenType::Plus)
        } else if c == '/' {
            self.make_token(TokenType::Slash)
        } else if c == '*' {
            self.make_token(TokenType::Star)
        } else if c == '!' {
            if self.is_match('=') {
                self.make_token(TokenType::BangEqual)
            } else {
                self.make_token(TokenType::Bang)
            }
        } else if c == '=' {
            if self.is_match('=') {
                self.make_token(TokenType::EqualEqual)
            } else {
                self.make_token(TokenType::Equal)
            }
        } else if c == '<' {
            if self.is_match('=') {
                self.make_token(TokenType::LessEqual)
            } else {
                self.make_token(TokenType::Less)
            }
        } else if c == '>' {
            if self.is_match('=') {
                self.make_token(TokenType::GreaterEqual)
            } else {
                self.make_token(TokenType::Greater)
            }
        } else if c == '"' {
            self.string()
        } else {
            self.error_token("Unexpected character.")
        }
    }

    /// The source text a token matched, as its own string.
    pub fn token_text(&self, t: &Token) -> (r: String)
        requires
            self.wf(),
            t.start + t.length <= self@.source.len(),
        ensures
            r@ == self@.source.subrange(t.start as int, t.start + t.length),
    {
        let n = self.chars.len();
        assert(t.start + t.length <= n);
        let s = self.text.as_str().substring_char(t.start, t.start + t.length);
        String::from_str(s)
    }
}

} // verus!
