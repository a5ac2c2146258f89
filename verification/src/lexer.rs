//! The scanner: turns source text into tokens, one `next_token` call at a
//! time, tracking line and column for error reports. Identifiers may use
//! any alphabetic characters, so the language's Vietnamese keywords and
//! names scan naturally.

use vstd::prelude::*;
use crate::error::VlError;
use crate::text::{digits_val, is_digit};
use crate::token::{Token, TokenType};

verus! {

/// Whether a character is alphanumeric in Unicode's sense; the result
/// depends on the character alone.
pub uninterp spec fn is_alnum_of(c: char) -> bool;

/// Whether a character is alphabetic in Unicode's sense; the result
/// depends on the character alone.
pub uninterp spec fn is_alpha_of(c: char) -> bool;

/// Relies on `char::is_alphanumeric`: a fixed classification of the
/// character alone.
#[verifier::external_body]
fn char_is_alphanumeric(c: char) -> (r: bool)
    ensures
        r == is_alnum_of(c),
{
    c.is_alphanumeric()
}

/// Relies on `char::is_alphabetic`: a fixed classification of the
/// character alone.
#[verifier::external_body]
fn char_is_alphabetic(c: char) -> (r: bool)
    ensures
        r == is_alpha_of(c),
{
    c.is_alphabetic()
}

/// A character that may continue an identifier.
pub open spec fn is_ident_char(c: char) -> bool {
    is_alnum_of(c) || c == '_'
}

/// The token kind a bare word scans to: a keyword of the fixed table, or
/// an identifier carrying the word itself.
pub open spec fn word_kind_matches(kind: TokenType, w: Seq<char>) -> bool {
    if w == "tb"@ {
        kind == TokenType::Tb
    } else if w == "neu"@ {
        kind == TokenType::Neu
    } else if w == "neu_khong"@ {
        kind == TokenType::NeuKhong
    } else if w == "lap"@ {
        kind == TokenType::Lap
    } else if w == "ham"@ {
        kind == TokenType::Ham
    } else if w == "tra_ve"@ {
        kind == TokenType::TraVe
    } else if w == "dung"@ {
        kind == TokenType::Dung
    } else if w == "sai"@ {
        kind == TokenType::Sai
    } else {
        kind matches TokenType::Ident(n) && n@ == w
    }
}

/// What a scanned token is, as a function of the characters of the span
/// `[m, b)` it was scanned from: the span determines the kind and its
/// payload.
pub open spec fn token_shape(src: Seq<char>, m: int, b: int, kind: TokenType) -> bool {
    match kind {
        TokenType::Int(v) => is_digit(src[m]) && (forall|i: int|
            m <= i < b ==> is_digit(#[trigger] src[i])) && (b == src.len() || !is_digit(
            src[b],
        )) && ({
            let d = digits_val(src.subrange(m, b));
            if d <= i64::MAX {
                v as int == d
            } else {
                v == i64::MAX
            }
        }),
        TokenType::Str(sv) => src[m] == '"' && b >= m + 2 && src[b - 1] == '"' && sv@
            == src.subrange(m + 1, b - 1),
        TokenType::Tb | TokenType::Neu | TokenType::NeuKhong | TokenType::Lap | TokenType::Ham
            | TokenType::TraVe | TokenType::Dung | TokenType::Sai | TokenType::Ident(_) => (
        is_alpha_of(src[m]) || src[m] == '_') && word_kind_matches(kind, src.subrange(m, b)) && (
        b == src.len() || !is_ident_char(src[b])),
        TokenType::ModeBrace | TokenType::ModeIndent | TokenType::ModeEnd => src[m] == '#',
        TokenType::Assign => src[m] == '=' && b == m + 1 && (b == src.len() || (src[b] != '='
            && src[b] != '>')),
        TokenType::Eq => src[m] == '=' && src[m + 1] == '=' && b == m + 2,
        TokenType::FatArrow => src[m] == '=' && src[m + 1] == '>' && b == m + 2,
        TokenType::Minus => src[m] == '-' && b == m + 1 && (b == src.len() || src[b] != '>'),
        TokenType::Arrow => src[m] == '-' && src[m + 1] == '>' && b == m + 2,
        TokenType::Lt => src[m] == '<' && b == m + 1 && (b == src.len() || src[b] != '='),
        TokenType::LtEq => src[m] == '<' && src[m + 1] == '=' && b == m + 2,
        TokenType::Gt => src[m] == '>' && b == m + 1 && (b == src.len() || src[b] != '='),
        TokenType::GtEq => src[m] == '>' && src[m + 1] == '=' && b == m + 2,
        TokenType::Not => src[m] == '!' && b == m + 1 && (b == src.len() || src[b] != '='),
        TokenType::NotEq => src[m] == '!' && src[m + 1] == '=' && b == m + 2,
        TokenType::Plus => src[m] == '+' && b == m + 1,
        TokenType::Star => src[m] == '*' && b == m + 1,
        TokenType::Slash => src[m] == '/' && b == m + 1,
        TokenType::LBrace => src[m] == '{' && b == m + 1,
        TokenType::RBrace => src[m] == '}' && b == m + 1,
        TokenType::LParen => src[m] == '(' && b == m + 1,
        TokenType::RParen => src[m] == ')' && b == m + 1,
        TokenType::Colon => src[m] == ':' && b == m + 1,
        TokenType::Comma => src[m] == ',' && b == m + 1,
        TokenType::Dot => src[m] == '.' && b == m + 1,
        TokenType::EOF => false,
    }
}

/// The scanner's state: the source as characters, a cursor, and the
/// position it is at.
pub struct Lexer {
    src: Vec<char>,
    pos: usize,
    line: usize,
    col: usize,
}

impl Lexer {
    /// The cursor never leaves the text.
    pub closed spec fn wf(&self) -> bool {
        self.pos <= self.src@.len()
    }

    /// The characters being scanned.
    pub closed spec fn src(&self) -> Seq<char> {
        self.src@
    }

    /// The cursor: how many characters have been consumed.
    pub closed spec fn at(&self) -> int {
        self.pos as int
    }

    /// A scanner at the start of the given source text.
    pub fn new(input: &str) -> (lx: Lexer)
        ensures
            lx.wf(),
            lx.src() == input@,
            lx.at() == 0,
    {
        Lexer { src: crate::text::str_chars(input), pos: 0, line: 1, col: 1 }
    }

    /// The current line, for error reports.
    fn line_at(&self) -> usize {
        self.line
    }

    /// The current column, for error reports.
    fn col_at(&self) -> usize {
        self.col
    }

    fn is_eof(&self) -> (r: bool)
        requires
            self.wf(),
        ensures
            r == (self.at() == self.src().len()),
    {
        self.pos >= self.src.len()
    }

    /// The character under the cursor, or NUL at the end.
    fn peek(&self) -> (c: char)
        requires
            self.wf(),
        ensures
            self.at() < self.src().len() ==> c == self.src()[self.at()],
            self.at() == self.src().len() ==> c == '\0',
    {
        if self.pos < self.src.len() {
            self.src[self.pos]
        } else {
            '\0'
        }
    }

    /// The character after the cursor, or NUL past the end.
    fn peek_next(&self) -> (c: char)
        requires
            self.wf(),
        ensures
            self.at() + 1 < self.src().len() ==> c == self.src()[self.at() + 1],
            self.at() + 1 >= self.src().len() ==> c == '\0',
    {
        let n = self.src.len();
        if self.pos < n && n - self.pos > 1 {
            self.src[self.pos + 1]
        } else {
            '\0'
        }
    }

    /// Consumes one character, keeping the line and column counts.
    fn advance(&mut self) -> (c: char)
        requires
            old(self).wf(),
            old(self).at() < old(self).src().len(),
        ensures
            final(self).wf(),
            final(self).src() == old(self).src(),
            final(self).at() == old(self).at() + 1,
            c == old(self).src()[old(self).at()],
    {
        let n = self.src.len();
        let c = self.src[self.pos];
        self.pos = self.pos + 1;
        if c == '\n' {
            if self.line < usize::MAX {
                self.line = self.line + 1;
            }
            self.col = 1;
        } else {
            if self.col < usize::MAX {
                self.col = self.col + 1;
            }
        }
        c
    }

    /// A token of the given kind at the current position.
    fn make_token(&self, kind: TokenType, len: usize) -> (t: Token)
        ensures
            t.kind == kind,
    {
        let col = if self.col > len {
            self.col - len
        } else {
            1
        };
        Token { kind, line: self.line, col, length: len }
    }

    /// Skips spaces, tabs, newlines and carriage returns.
    fn skip_whitespace(&mut self)
        requires
            old(self).wf(),
        ensures
            final(self).wf(),
            final(self).src() == old(self).src(),
            old(self).at() <= final(self).at(),
        decreases old(self).src().len() - old(self).at(),
    {
        while self.pos < self.src.len() && is_space(self.src[self.pos])
            invariant
                self.wf(),
                self.src() == old(self).src(),
                old(self).at() <= self.at(),
            decreases self.src().len() - self.at(),
        {
            let _ = self.advance();
        }
    }

    /// Skips a `#` comment to the end of its line, consuming the `#`.
    fn skip_comment(&mut self)
        requires
            old(self).wf(),
            old(self).at() < old(self).src().len(),
        ensures
            final(self).wf(),
            final(self).src() == old(self).src(),
            old(self).at() < final(self).at(),
    {
        let _ = self.advance();
        while self.pos < self.src.len() && self.src[self.pos] != '\n'
            invariant
                self.wf(),
                self.src() == old(self).src(),
                old(self).at() < self.at(),
            decreases self.src().len() - self.at(),
        {
            let _ = self.advance();
        }
    }

    /// Scans the maximal identifier run under the cursor and maps it
    /// through the keyword table.
    fn read_identifier(&mut self) -> (t: Token)
        requires
            old(self).wf(),
            old(self).at() < old(self).src().len(),
        ensures
            final(self).wf(),
            final(self).src() == old(self).src(),
            old(self).at() < final(self).at(),
            forall|i: int|
                old(self).at() <= i < final(self).at() ==> is_ident_char(
                    #[trigger] old(self).src()[i],
                ) || i == old(self).at(),
            final(self).at() == final(self).src().len() || !is_ident_char(
                final(self).src()[final(self).at()],
            ),
            word_kind_matches(t.kind, old(self).src().subrange(old(self).at(), final(self).at())),
    {
        let start_pos = self.pos;
        let ghost start = self.pos as int;
        let mut word = String::new();
        let c0 = self.advance();
        push_char(&mut word, c0);
        proof {
            assert(word@ =~= self.src().subrange(start, self.at()));
        }
        while self.pos < self.src.len() && is_ident_char_exec(self.src[self.pos])
            invariant
                self.wf(),
                self.src() == old(self).src(),
                start == old(self).at(),
                start < self.at(),
                word@ == self.src().subrange(start, self.at()),
                forall|i: int|
                    start <= i < self.at() ==> is_ident_char(#[trigger] self.src()[i]) || i
                        == start,
            decreases self.src().len() - self.at(),
        {
            let c = self.advance();
            push_char(&mut word, c);
            proof {
                assert(word@ =~= self.src().subrange(start, self.at()));
            }
        }
        let kind = keyword_or_ident(word);
        self.make_token(kind, self.pos - start_pos)
    }

    /// Scans the maximal digit run under the cursor into an integer
    /// literal; a run too large for the literal type saturates.
    fn read_number(&mut self) -> (t: Token)
        requires
            old(self).wf(),
            old(self).at() < old(self).src().len(),
            is_digit(old(self).src()[old(self).at()]),
        ensures
            final(self).wf(),
            final(self).src() == old(self).src(),
            old(self).at() < final(self).at(),
            forall|i: int|
                old(self).at() <= i < final(self).at() ==> is_digit(#[trigger] old(self).src()[i]),
            final(self).at() == final(self).src().len() || !is_digit(
                final(self).src()[final(self).at()],
            ),
            t.kind matches TokenType::Int(v) && ({
                let d = digits_val(old(self).src().subrange(old(self).at(), final(self).at()));
                if d <= i64::MAX {
                    v as int == d
                } else {
                    v == i64::MAX
                }
            }),
    {
        let start_pos = self.pos;
        let ghost start = self.pos as int;
        let mut acc: u128 = 0;
        let mut sat = false;
        while self.pos < self.src.len() && is_digit_exec(self.src[self.pos])
            invariant
                self.wf(),
                self.src() == old(self).src(),
                start == old(self).at(),
                start <= self.at(),
                forall|i: int| start <= i < self.at() ==> is_digit(#[trigger] self.src()[i]),
                !sat ==> acc as int == digits_val(self.src().subrange(start, self.at()))
                    && acc <= i64::MAX as u128,
                sat ==> digits_val(self.src().subrange(start, self.at())) > i64::MAX as int,
            decreases self.src().len() - self.at(),
        {
            let ghost before = self.at();
            let c = self.advance();
            let d = match crate::text::char_digit(c) {
                Some(d) => d,
                None => 0,
            };
            proof {
                assert(self.src().subrange(start, before + 1) =~= self.src().subrange(
                    start,
                    before,
                ).push(self.src()[before]));
                crate::text::lemma_digits_val_push(
                    self.src().subrange(start, before),
                    self.src()[before],
                );
                crate::text::lemma_digits_val_nonneg(self.src().subrange(start, before));
            }
            if !sat {
                acc = acc * 10 + (d as u128);
                if acc > (i64::MAX as u128) {
                    sat = true;
                }
            }
        }
        let v: i64 = if sat {
            i64::MAX
        } else {
            acc as i64
        };
        self.make_token(TokenType::Int(v), self.pos - start_pos)
    }

    /// Scans a double-quoted string literal; reaching the end of the text
    /// first is the unterminated-string error.
    fn read_string(&mut self) -> (r: Result<Token, VlError>)
        requires
            old(self).wf(),
            old(self).at() < old(self).src().len(),
        ensures
            final(self).wf(),
            final(self).src() == old(self).src(),
            old(self).at() < final(self).at(),
            match r {
                Ok(t) => t.kind matches TokenType::Str(s) && s@ == old(self).src().subrange(
                    old(self).at() + 1,
                    final(self).at() - 1,
                ) && final(self).at() >= old(self).at() + 2 && old(self).src()[final(self).at()
                    - 1] == '"',
                Err(_) => final(self).at() == final(self).src().len(),
            },
    {
        let start_pos = self.pos;
        let open_line = self.line_at();
        let open_col = self.col_at();
        let ghost start = self.pos as int;
        let _ = self.advance();  // the opening quote
        let mut content = String::new();
        proof {
            assert(content@ =~= self.src().subrange(start + 1, self.at()));
        }
        while self.pos < self.src.len() && self.src[self.pos] != '"'
            invariant
                self.wf(),
                self.src() == old(self).src(),
                start == old(self).at(),
                start < self.at(),
                content@ == self.src().subrange(start + 1, self.at()),
            decreases self.src().len() - self.at(),
        {
            let c = self.advance();
            push_char(&mut content, c);
            proof {
                assert(content@ =~= self.src().subrange(start + 1, self.at()));
            }
        }
        if self.is_eof() {
            // The error points at the quote that was never closed.
            return Err(VlError::new(
                "Chuoi chua duoc dong",
                "Unterminated string literal",
                open_line,
                open_col,
            ));
        }
        let _ = self.advance();  // the closing quote
        Ok(self.make_token(TokenType::Str(content), self.pos - start_pos))
    }

    /// Scans a `#[...]` layout-mode header.
    fn read_mode_header(&mut self) -> (r: Result<Token, VlError>)
        requires
            old(self).wf(),
            old(self).at() < old(self).src().len(),
        ensures
            final(self).wf(),
            final(self).src() == old(self).src(),
            old(self).at() < final(self).at(),
            r matches Ok(t) ==> (t.kind is ModeBrace || t.kind is ModeIndent
                || t.kind is ModeEnd),
    {
        let start_pos = self.pos;
        let ghost start = self.pos as int;
        let mut header = String::new();
        let c0 = self.advance();
        push_char(&mut header, c0);
        while self.pos < self.src.len() && self.src[self.pos] != ']'
            invariant
                self.wf(),
                self.src() == old(self).src(),
                start < self.at(),
            decreases self.src().len() - self.at(),
        {
            let c = self.advance();
            push_char(&mut header, c);
        }
        if !self.is_eof() {
            let c = self.advance();
            push_char(&mut header, c);
        }
        let kind = if crate::compiler::str_eq(header.as_str(), "#[{}]") {
            TokenType::ModeBrace
        } else if crate::compiler::str_eq(header.as_str(), "#[ime]") {
            TokenType::ModeIndent
        } else if crate::compiler::str_eq(header.as_str(), "#[end]") {
            TokenType::ModeEnd
        } else {
            return Err(VlError::new(
                "Mode khong hop le",
                "Bad layout mode",
                self.line,
                self.col,
            ));
        };
        Ok(self.make_token(kind, self.pos - start_pos))
    }

    /// Scans the next token: skips whitespace and comments, then
    /// dispatches on the first significant character. Either the cursor
    /// advances or the end of the text is reached with an `EOF` token;
    /// only an invalid character, an unterminated string or a bad layout
    /// mode is an error.
    pub fn next_token(&mut self) -> (r: Result<Token, VlError>)
        requires
            old(self).wf(),
        ensures
            final(self).wf(),
            final(self).src() == old(self).src(),
            old(self).at() <= final(self).at(),
            match r {
                Ok(t) => {
                    &&& (t.kind is EOF || old(self).at() < final(self).at())
                    &&& (t.kind is EOF ==> final(self).at() == final(self).src().len())
                    &&& (!(t.kind is EOF) ==> exists|m: int|
                        #![auto]
                        old(self).at() <= m && m < final(self).at() && token_shape(
                            final(self).src(),
                            m,
                            final(self).at(),
                            t.kind,
                        ))
                },
                Err(_) => old(self).at() < final(self).at(),
            },
        decreases old(self).src().len() - old(self).at(),
    {
        self.skip_whitespace();
        if self.is_eof() {
            return Ok(self.make_token(TokenType::EOF, 0));
        }
        let ghost m = self.at();
        let c = self.peek();
        if c == '#' && self.peek_next() != '[' {
            self.skip_comment();
            return self.next_token();
        }
        if c == '#' {
            let t = self.read_mode_header()?;
            proof {
                assert(token_shape(self.src(), m, self.at(), t.kind));
            }
            return Ok(t);
        }
        if char_is_alphabetic(c) || c == '_' {
            let t = self.read_identifier();
            proof {
                assert(token_shape(self.src(), m, self.at(), t.kind));
            }
            return Ok(t);
        }
        if is_digit_exec(c) {
            let t = self.read_number();
            proof {
                assert(token_shape(self.src(), m, self.at(), t.kind));
            }
            return Ok(t);
        }
        if c == '"' {
            let t = self.read_string()?;
            proof {
                assert(token_shape(self.src(), m, self.at(), t.kind));
            }
            return Ok(t);
        }
        let start_pos = self.pos;
        let _ = self.advance();
        let two = self.peek();
        let kind = if c == '=' && two == '=' {
            let _ = self.advance();
            TokenType::Eq
        } else if c == '=' && two == '>' {
            let _ = self.advance();
            TokenType::FatArrow
        } else if c == '=' {
            TokenType::Assign
        } else if c == '-' && two == '>' {
            let _ = self.advance();
            TokenType::Arrow
        } else if c == '-' {
            TokenType::Minus
        } else if c == '<' && two == '=' {
            let _ = self.advance();
            TokenType::LtEq
        } else if c == '<' {
            TokenType::Lt
        } else if c == '>' && two == '=' {
            let _ = self.advance();
            TokenType::GtEq
        } else if c == '>' {
            TokenType::Gt
        } else if c == '!' && two == '=' {
            let _ = self.advance();
            TokenType::NotEq
        } else if c == '!' {
            TokenType::Not
        } else if c == '+' {
            TokenType::Plus
        } else if c == '*' {
            TokenType::Star
        } else if c == '/' {
            TokenType::Slash
        } else if c == '{' {
            TokenType::LBrace
        } else if c == '}' {
            TokenType::RBrace
        } else if c == '(' {
            TokenType::LParen
        } else if c == ')' {
            TokenType::RParen
        } else if c == ':' {
            TokenType::Colon
        } else if c == ',' {
            TokenType::Comma
        } else if c == '.' {
            TokenType::Dot
        } else {
            return Err(VlError::new(
                "Ky tu khong hop le",
                "Unexpected character",
                self.line,
                self.col,
            ));
        };
        proof {
            assert(token_shape(self.src(), m, self.at(), kind));
        }
        Ok(self.make_token(kind, self.pos - start_pos))
    }

    /// Scans the whole text into tokens, ending with the `EOF` token, or
    /// stops at the first lexical error.
    pub fn scan_tokens(&mut self) -> (r: Result<Vec<Token>, VlError>)
        requires
            old(self).wf(),
        ensures
            final(self).wf(),
            r matches Ok(v) ==> {
                &&& v@.len() >= 1
                &&& v@.last().kind is EOF
                &&& forall|j: int| 0 <= j < v@.len() - 1 ==> !(#[trigger] v@[j].kind is EOF)
                &&& final(self).at() == final(self).src().len()
            },
    {
        let mut out: Vec<Token> = Vec::new();
        loop
            invariant
                self.wf(),
                forall|j: int| 0 <= j < out@.len() ==> !(#[trigger] out@[j].kind is EOF),
            decreases self.src().len() - self.at() + 1,
        {
            let ghost before = self.at();
            let t = self.next_token()?;
            let is_end = matches!(t.kind, TokenType::EOF);
            out.push(t);
            if is_end {
                return Ok(out);
            }
            proof {
                assert(before < self.at());
            }
        }
    }
}

/// ASCII whitespace the scanner skips.
fn is_space(c: char) -> (r: bool)
    ensures
        r == (c == ' ' || c == '\t' || c == '\r' || c == '\n'),
{
    c == ' ' || c == '\t' || c == '\r' || c == '\n'
}

fn is_digit_exec(c: char) -> (r: bool)
    ensures
        r == is_digit(c),
{
    matches!(c, '0' | '1' | '2' | '3' | '4' | '5' | '6' | '7' | '8' | '9')
}

fn is_ident_char_exec(c: char) -> (r: bool)
    ensures
        r == is_ident_char(c),
{
    char_is_alphanumeric(c) || c == '_'
}

/// Relies on `String::push`: appends exactly the one character.
#[verifier::external_body]
fn push_char(s: &mut String, c: char)
    ensures
        final(s)@ == old(s)@ + seq![c],
{
    s.push(c);
}

/// Maps a scanned word through the fixed keyword table.
fn keyword_or_ident(word: String) -> (kind: TokenType)
    ensures
        word_kind_matches(kind, word@),
{
    if crate::compiler::str_eq(word.as_str(), "tb") {
        TokenType::Tb
    } else if crate::compiler::str_eq(word.as_str(), "neu") {
        TokenType::Neu
    } else if crate::compiler::str_eq(word.as_str(), "neu_khong") {
        TokenType::NeuKhong
    } else if crate::compiler::str_eq(word.as_str(), "lap") {
        TokenType::Lap
    } else if crate::compiler::str_eq(word.as_str(), "ham") {
        TokenType::Ham
    } else if crate::compiler::str_eq(word.as_str(), "tra_ve") {
        TokenType::TraVe
    } else if crate::compiler::str_eq(word.as_str(), "dung") {
        TokenType::Dung
    } else if crate::compiler::str_eq(word.as_str(), "sai") {
        TokenType::Sai
    } else {
        TokenType::Ident(word)
    }
}

} // verus!
