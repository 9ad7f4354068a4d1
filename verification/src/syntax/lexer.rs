//! From characters to tokens.
//!
//! The lexer is stated over the characters of the source: what trivia is skipped,
//! what the token at a position is and where it ends, and which error comes where
//! there is none. Positions are counted in characters; spans in bytes.

use crate::error::{err, ErrV, ErrorKind, QuinceError};
use crate::big::Big;
use crate::float::{ratio_bits, round, ten_to};
use crate::syntax::token::{keyword_of, tokens_view, Span, Token, TokenKind, TokenKindV, TokenV};
use crate::text::{
    alphabetic, alphanumeric, chars_of, is_alphabetic, is_alphanumeric, is_whitespace,
    lemma_offset_monotonic, offset, push_char, string_of, whitespace, width_of,
};
use vstd::prelude::*;

verus! {

// -- the model -------------------------------------------------------------------

/// The span between two character positions.
pub open spec fn span_of(cs: Seq<char>, i: int, j: int) -> Span {
    Span { start: offset(cs, i) as usize, end: offset(cs, j) as usize }
}

/// Whether a character may begin a name.
pub open spec fn starts_name(c: char) -> bool {
    c == '_' || alphabetic(c)
}

/// Whether a character may continue a name.
pub open spec fn continues_name(c: char) -> bool {
    c == '_' || alphanumeric(c)
}

pub open spec fn is_digit(c: char) -> bool {
    '0' <= c && c <= '9'
}

/// Where white space and comments from `i` on end, and whether a line break was
/// among them. A comment runs from a `#` to the end of its line, and the line break
/// behind it still counts.
pub open spec fn trivia(cs: Seq<char>, i: int, newline: bool, comment: bool) -> (int, bool)
    decreases cs.len() - i,
{
    if i < 0 || i >= cs.len() {
        (i, newline)
    } else if cs[i] == '\n' {
        trivia(cs, i + 1, true, false)
    } else if comment || whitespace(cs[i]) {
        trivia(cs, i + 1, newline, comment)
    } else if cs[i] == '#' {
        trivia(cs, i + 1, newline, true)
    } else {
        (i, newline)
    }
}

/// Where the digits from `i` on end.
pub open spec fn digits_end(cs: Seq<char>, i: int) -> int
    decreases cs.len() - i,
{
    if 0 <= i < cs.len() && is_digit(cs[i]) {
        digits_end(cs, i + 1)
    } else {
        i
    }
}

/// Where the name characters from `i` on end.
pub open spec fn name_end(cs: Seq<char>, i: int) -> int
    decreases cs.len() - i,
{
    if 0 <= i < cs.len() && continues_name(cs[i]) {
        name_end(cs, i + 1)
    } else {
        i
    }
}

/// The number that the digits from `i` up to `j` write, a decimal point among them
/// passed over.
pub open spec fn digits_value(cs: Seq<char>, i: int, j: int) -> nat
    decreases j - i,
{
    if j <= i || j > cs.len() {
        0
    } else if cs[j - 1] == '.' {
        digits_value(cs, i, j - 1)
    } else {
        digits_value(cs, i, j - 1) * 10 + (cs[j - 1] as u32 - '0' as u32) as nat
    }
}

/// The token of the number at `i` and where it ends, or the error for it: an integer
/// past the range. A number with a point is the nearest there is.
pub open spec fn number_at(cs: Seq<char>, i: int) -> Result<(TokenKindV, int), ErrV> {
    let whole = digits_end(cs, i);
    let is_float = whole + 1 < cs.len() && cs[whole] == '.' && is_digit(cs[whole + 1]);
    let end = if is_float {
        digits_end(cs, whole + 1)
    } else {
        whole
    };
    let text = cs.subrange(i, end);
    let value = digits_value(cs, i, end);
    if is_float {
        Ok((TokenKindV::Float(ratio_bits(value, ten_to((end - whole - 1) as nat))), end))
    } else if value <= i64::MAX {
        Ok((TokenKindV::Int(value as i64), end))
    } else {
        Err(
            err(ErrorKind::Syntax, "integer '"@ + text + "' is out of range"@, span_of(cs, i, end)),
        )
    }
}

/// What a backslash and the character after it stand for.
pub open spec fn escaped(c: char) -> Option<char> {
    if c == 'n' {
        Some('\n')
    } else if c == 't' {
        Some('\t')
    } else if c == 'r' {
        Some('\r')
    } else if c == '0' {
        Some('\0')
    } else if c == '\\' {
        Some('\\')
    } else if c == '"' {
        Some('"')
    } else {
        None
    }
}

/// The string literal opened at `start`, read from `i` on, after the characters
/// `done` of it.
pub open spec fn string_from(cs: Seq<char>, start: int, i: int, done: Seq<char>) -> Result<
    (TokenKindV, int),
    ErrV,
>
    decreases cs.len() - i,
{
    let unterminated = err(
        ErrorKind::Syntax,
        "unterminated string literal"@,
        span_of(cs, start, cs.len() as int),
    );
    if i < 0 || i >= cs.len() {
        Err(unterminated)
    } else if cs[i] == '"' {
        Ok((TokenKindV::Str(done), i + 1))
    } else if cs[i] == '\\' {
        if i + 1 >= cs.len() {
            Err(unterminated)
        } else {
            match escaped(cs[i + 1]) {
                Some(c) => string_from(cs, start, i + 2, done.push(c)),
                None => Err(
                    err(
                        ErrorKind::Syntax,
                        "unknown escape '\\"@ + seq![cs[i + 1]] + "'"@,
                        span_of(cs, i, i + 2),
                    ),
                ),
            }
        }
    } else {
        string_from(cs, start, i + 1, done.push(cs[i]))
    }
}

/// The token a character is by itself.
pub open spec fn single(c: char) -> Option<TokenKindV> {
    if c == '(' {
        Some(TokenKindV::LParen)
    } else if c == ')' {
        Some(TokenKindV::RParen)
    } else if c == '{' {
        Some(TokenKindV::LBrace)
    } else if c == '}' {
        Some(TokenKindV::RBrace)
    } else if c == '[' {
        Some(TokenKindV::LBracket)
    } else if c == ']' {
        Some(TokenKindV::RBracket)
    } else if c == ',' {
        Some(TokenKindV::Comma)
    } else if c == '.' {
        Some(TokenKindV::Dot)
    } else if c == ':' {
        Some(TokenKindV::Colon)
    } else if c == ';' {
        Some(TokenKindV::Semi)
    } else if c == '?' {
        Some(TokenKindV::Question)
    } else if c == '+' {
        Some(TokenKindV::Plus)
    } else if c == '-' {
        Some(TokenKindV::Minus)
    } else if c == '*' {
        Some(TokenKindV::Star)
    } else if c == '/' {
        Some(TokenKindV::Slash)
    } else if c == '%' {
        Some(TokenKindV::Percent)
    } else if c == '=' {
        Some(TokenKindV::Assign)
    } else if c == '!' {
        Some(TokenKindV::Not)
    } else if c == '<' {
        Some(TokenKindV::Lt)
    } else if c == '>' {
        Some(TokenKindV::Gt)
    } else {
        None
    }
}

/// The token two characters are together.
pub open spec fn double(c: char, d: char) -> Option<TokenKindV> {
    if c == '/' && d == '/' {
        Some(TokenKindV::SlashSlash)
    } else if c == '=' && d == '=' {
        Some(TokenKindV::Eq)
    } else if c == '!' && d == '=' {
        Some(TokenKindV::Ne)
    } else if c == '<' && d == '=' {
        Some(TokenKindV::Le)
    } else if c == '>' && d == '=' {
        Some(TokenKindV::Ge)
    } else if c == '&' && d == '&' {
        Some(TokenKindV::AndAnd)
    } else if c == '|' && d == '|' {
        Some(TokenKindV::OrOr)
    } else if c == '+' && d == '=' {
        Some(TokenKindV::PlusAssign)
    } else if c == '-' && d == '=' {
        Some(TokenKindV::MinusAssign)
    } else if c == '*' && d == '=' {
        Some(TokenKindV::StarAssign)
    } else if c == '/' && d == '=' {
        Some(TokenKindV::SlashAssign)
    } else if c == '%' && d == '=' {
        Some(TokenKindV::PercentAssign)
    } else {
        None
    }
}

/// The token at `i` and where it ends, or the error for there being none. Two
/// characters that make an operator together win over the first alone.
pub open spec fn token_at(cs: Seq<char>, i: int) -> Result<(TokenKindV, int), ErrV>
    recommends
        0 <= i < cs.len(),
{
    let c = cs[i];
    if i + 1 < cs.len() && double(c, cs[i + 1]) is Some {
        Ok((double(c, cs[i + 1])->0, i + 2))
    } else if single(c) is Some {
        Ok((single(c)->0, i + 1))
    } else if c == '&' || c == '|' {
        Err(
            err(
                ErrorKind::Syntax,
                "unexpected '"@ + seq![c] + "' (did you mean '"@ + seq![c] + seq![c] + "'?)"@,
                span_of(cs, i, i + 1),
            ),
        )
    } else if c == '"' {
        string_from(cs, i, i + 1, Seq::empty())
    } else if is_digit(c) {
        number_at(cs, i)
    } else if starts_name(c) {
        let end = name_end(cs, i + 1);
        let word = cs.subrange(i, end);
        Ok(
            (
                match keyword_of(word) {
                    Some(kind) => kind,
                    None => TokenKindV::Ident(word),
                },
                end,
            ),
        )
    } else {
        Err(
            err(ErrorKind::Syntax, "unexpected character '"@ + seq![c] + "'"@, span_of(cs, i, i + 1)),
        )
    }
}

/// The tokens from `i` on after the tokens `done`, the last of them the end of the
/// text, or the first error among them.
pub open spec fn tokens_from(cs: Seq<char>, i: int, done: Seq<TokenV>) -> Result<Seq<TokenV>, ErrV>
    decreases cs.len() - i,
{
    let (at, newline) = trivia(cs, i, false, false);
    if i < 0 || at < i || at >= cs.len() {
        Ok(
            done.push(
                TokenV {
                    kind: TokenKindV::Eof,
                    span: span_of(cs, at, at),
                    newline_before: newline,
                },
            ),
        )
    } else {
        match token_at(cs, at) {
            Err(e) => Err(e),
            Ok((kind, end)) => if end <= at || end > cs.len() {
                Ok(done)
            } else {
                tokens_from(
                    cs,
                    end,
                    done.push(
                        TokenV { kind, span: span_of(cs, at, end), newline_before: newline },
                    ),
                )
            },
        }
    }
}

/// The tokens of a source text, or the first error in it.
pub open spec fn tokens_of(source: Seq<char>) -> Result<Seq<TokenV>, ErrV> {
    tokens_from(source, 0, Seq::empty())
}

// -- the lexer -----------------------------------------------------------------------

/// A source text about to be read.
pub struct Lexer<'a> {
    pub src: &'a str,
}

/// A position in a text: its characters, and the byte it stands at.
struct Cursor {
    chars: Vec<char>,
    pos: usize,
    byte: usize,
}

impl Cursor {
    spec fn inv(&self) -> bool {
        &&& self.pos <= self.chars@.len()
        &&& self.byte == offset(self.chars@, self.pos as int)
        &&& offset(self.chars@, self.chars@.len() as int) <= usize::MAX
    }

    fn advance(&mut self)
        requires
            old(self).inv(),
            old(self).pos < old(self).chars@.len(),
        ensures
            final(self).inv(),
            final(self).chars == old(self).chars,
            final(self).pos == old(self).pos + 1,
    {
        proof {
            lemma_offset_monotonic(self.chars@, self.pos + 1, self.chars@.len() as int);
        }
        let len: usize = self.chars.len();
        assert(self.pos < len);
        self.byte = self.byte + width_of(self.chars[self.pos]);
        self.pos = self.pos + 1;
    }

    fn skip_trivia(&mut self) -> (newline: bool)
        requires
            old(self).inv(),
        ensures
            final(self).inv(),
            final(self).chars == old(self).chars,
            final(self).pos >= old(self).pos,
            trivia(old(self).chars@, old(self).pos as int, false, false) == (
                final(self).pos as int,
                newline,
            ),
    {
        let mut newline = false;
        let mut comment = false;
        let ghost cs = self.chars@;
        let ghost from = self.pos as int;
        while self.pos < self.chars.len() && (self.chars[self.pos] == '\n' || comment
            || is_whitespace(self.chars[self.pos]) || self.chars[self.pos] == '#')
            invariant
                self.inv(),
                self.chars == old(self).chars,
                cs == self.chars@,
                from <= self.pos,
                trivia(cs, from, false, false) == trivia(cs, self.pos as int, newline, comment),
            decreases self.chars@.len() - self.pos,
        {
            if self.chars[self.pos] == '\n' {
                newline = true;
                comment = false;
            } else if !comment && !is_whitespace(self.chars[self.pos]) {
                comment = true;
            }
            self.advance();
        }
        newline
    }

    fn skip_digits(&mut self)
        requires
            old(self).inv(),
        ensures
            final(self).inv(),
            final(self).chars == old(self).chars,
            final(self).pos >= old(self).pos,
            final(self).pos == digits_end(old(self).chars@, old(self).pos as int),
    {
        let ghost cs = self.chars@;
        let ghost from = self.pos as int;
        while self.pos < self.chars.len() && self.chars[self.pos] >= '0' && self.chars[self.pos]
            <= '9'
            invariant
                self.inv(),
                self.chars == old(self).chars,
                cs == self.chars@,
                from <= self.pos,
                digits_end(cs, from) == digits_end(cs, self.pos as int),
            decreases self.chars@.len() - self.pos,
        {
            self.advance();
        }
    }

    fn skip_name(&mut self)
        requires
            old(self).inv(),
        ensures
            final(self).inv(),
            final(self).chars == old(self).chars,
            final(self).pos >= old(self).pos,
            final(self).pos == name_end(old(self).chars@, old(self).pos as int),
    {
        let ghost cs = self.chars@;
        let ghost from = self.pos as int;
        while self.pos < self.chars.len() && (self.chars[self.pos] == '_' || is_alphanumeric(
            self.chars[self.pos],
        ))
            invariant
                self.inv(),
                self.chars == old(self).chars,
                cs == self.chars@,
                from <= self.pos,
                name_end(cs, from) == name_end(cs, self.pos as int),
            decreases self.chars@.len() - self.pos,
        {
            self.advance();
        }
    }
}

/// The value of the digits from `from` up to `to`, or `None` past 64 bits.
fn value_of(cs: &Vec<char>, from: usize, to: usize) -> (r: Option<u64>)
    requires
        from <= to <= cs@.len(),
        forall|k: int| from <= k < to ==> is_digit(#[trigger] cs@[k]) || cs@[k] == '.',
    ensures
        match r {
            Some(n) => n == digits_value(cs@, from as int, to as int),
            None => digits_value(cs@, from as int, to as int) > u64::MAX,
        },
{
    let mut total: Option<u64> = Some(0);
    let mut i: usize = from;
    while i < to
        invariant
            from <= i <= to <= cs@.len(),
            forall|k: int| from <= k < to ==> is_digit(#[trigger] cs@[k]) || cs@[k] == '.',
            match total {
                Some(n) => n == digits_value(cs@, from as int, i as int),
                None => digits_value(cs@, from as int, i as int) > u64::MAX,
            },
        decreases to - i,
    {
        let c: char = cs[i];
        if c != '.' {
            let d: u64 = (c as u32 - '0' as u32) as u64;
            total = match total {
                Some(n) => match n.checked_mul(10) {
                    Some(m) => m.checked_add(d),
                    None => None,
                },
                None => None,
            };
        }
        i += 1;
    }
    total
}

/// The number that digits write, however many there are.
fn big_value(cs: &Vec<char>, from: usize, to: usize) -> (r: Big)
    requires
        from <= to <= cs@.len(),
        forall|k: int| from <= k < to ==> is_digit(#[trigger] cs@[k]) || cs@[k] == '.',
    ensures
        r@ == digits_value(cs@, from as int, to as int),
{
    let mut r = Big::of(0);
    let mut i: usize = from;
    while i < to
        invariant
            from <= i <= to <= cs@.len(),
            forall|k: int| from <= k < to ==> is_digit(#[trigger] cs@[k]) || cs@[k] == '.',
            r@ == digits_value(cs@, from as int, i as int),
        decreases to - i,
    {
        let c: char = cs[i];
        if c != '.' {
            assert(is_digit(cs@[i as int]));
            r = r.scaled(10, c as u32 - '0' as u32);
        }
        i += 1;
    }
    r
}

/// Ten to the `k`.
fn big_ten(k: usize) -> (r: Big)
    ensures
        r@ == ten_to(k as nat),
        r@ > 0,
{
    let mut r = Big::of(1);
    let mut i: usize = 0;
    while i < k
        invariant
            i <= k,
            r@ == ten_to(i as nat),
            r@ > 0,
        decreases k - i,
    {
        r = r.scaled(10, 0);
        i += 1;
    }
    r
}

proof fn lemma_digits_between(cs: Seq<char>, i: int, k: int)
    requires
        0 <= i <= k < digits_end(cs, i),
    ensures
        k < cs.len(),
        is_digit(cs[k]),
        digits_end(cs, i) <= cs.len(),
    decreases cs.len() - i,
{
    if i < cs.len() && is_digit(cs[i]) {
        if i < k {
            lemma_digits_between(cs, i + 1, k);
        } else if i + 1 < digits_end(cs, i + 1) {
            lemma_digits_between(cs, i + 1, i + 1);
        }
    }
}

impl Cursor {
    fn number(&mut self) -> (r: Result<TokenKind, QuinceError>)
        requires
            old(self).inv(),
            old(self).pos < old(self).chars@.len(),
            is_digit(old(self).chars@[old(self).pos as int]),
        ensures
            final(self).inv(),
            final(self).chars == old(self).chars,
            match r {
                Ok(kind) => final(self).pos > old(self).pos && number_at(
                    old(self).chars@,
                    old(self).pos as int,
                ) == Ok::<(TokenKindV, int), ErrV>((kind@, final(self).pos as int)),
                Err(e) => number_at(old(self).chars@, old(self).pos as int) == Err::<
                    (TokenKindV, int),
                    ErrV,
                >(e@),
            },
    {
        let ghost cs = self.chars@;
        let start: usize = self.pos;
        let start_byte: usize = self.byte;
        self.advance();
        self.skip_digits();
        let whole: usize = self.pos;
        let len: usize = self.chars.len();
        let is_float = whole < len && self.chars[whole] == '.' && whole + 1 < len
            && self.chars[whole + 1] >= '0' && self.chars[whole + 1] <= '9';
        proof {
            assert forall|k: int| start <= k < whole implies is_digit(#[trigger] cs[k]) by {
                lemma_digits_between(cs, start as int, k);
            }
        }
        if is_float {
            self.advance();
            self.skip_digits();
            proof {
                assert forall|k: int| whole < k < self.pos implies is_digit(#[trigger] cs[k]) by {
                    lemma_digits_between(cs, whole + 1, k);
                }
            }
        }
        let text = string_of(&self.chars, start, self.pos);
        let span = Span::new(start_byte, self.byte);
        if is_float {
            let value = big_value(&self.chars, start, self.pos);
            let scale = big_ten(self.pos - whole - 1);
            Ok(TokenKind::Float(round(&value, &scale, 0)))
        } else {
            match value_of(&self.chars, start, self.pos) {
                Some(n) if n <= 0x7fff_ffff_ffff_ffff => Ok(TokenKind::Int(n as i64)),
                _ => {
                    let mut message = String::from_str("integer '");
                    message.append(text.as_str());
                    message.append("' is out of range");
                    Err(QuinceError::new(ErrorKind::Syntax, message, span))
                },
            }
        }
    }

    fn string(&mut self, start: usize, start_byte: usize) -> (r: Result<TokenKind, QuinceError>)
        requires
            old(self).inv(),
            start < old(self).pos,
            start_byte == offset(old(self).chars@, start as int),
        ensures
            final(self).inv(),
            final(self).chars == old(self).chars,
            match r {
                Ok(kind) => final(self).pos > old(self).pos && string_from(
                    old(self).chars@,
                    start as int,
                    old(self).pos as int,
                    Seq::empty(),
                ) == Ok::<(TokenKindV, int), ErrV>((kind@, final(self).pos as int)),
                Err(e) => string_from(
                    old(self).chars@,
                    start as int,
                    old(self).pos as int,
                    Seq::empty(),
                ) == Err::<(TokenKindV, int), ErrV>(e@),
            },
    {
        let ghost cs = self.chars@;
        let ghost from = self.pos as int;
        let mut value = String::new();
        assert(value@ =~= Seq::empty());
        while self.pos < self.chars.len()
            invariant
                self.inv(),
                self.chars == old(self).chars,
                cs == self.chars@,
                from == old(self).pos,
                start < from <= self.pos,
                start_byte == offset(cs, start as int),
                string_from(cs, start as int, from, Seq::empty()) == string_from(
                    cs,
                    start as int,
                    self.pos as int,
                    value@,
                ),
            decreases self.chars@.len() - self.pos,
        {
            let c: char = self.chars[self.pos];
            let at_byte: usize = self.byte;
            self.advance();
            if c == '"' {
                return Ok(TokenKind::Str(value));
            }
            if c == '\\' {
                if self.pos >= self.chars.len() {
                    return Err(
                        QuinceError::new(
                            ErrorKind::Syntax,
                            "unterminated string literal".to_owned(),
                            Span::new(start_byte, self.byte),
                        ),
                    );
                }
                let esc: char = self.chars[self.pos];
                self.advance();
                let meant: char = if esc == 'n' {
                    '\n'
                } else if esc == 't' {
                    '\t'
                } else if esc == 'r' {
                    '\r'
                } else if esc == '0' {
                    '\0'
                } else if esc == '\\' {
                    '\\'
                } else if esc == '"' {
                    '"'
                } else {
                    let mut message = String::from_str("unknown escape '\\");
                    push_char(&mut message, esc);
                    assert(message@ =~= "unknown escape '\\"@ + seq![esc]);
                    message.append("'");
                    return Err(
                        QuinceError::new(
                            ErrorKind::Syntax,
                            message,
                            Span::new(at_byte, self.byte),
                        ),
                    );
                };
                push_char(&mut value, meant);
            } else {
                push_char(&mut value, c);
            }
        }
        Err(
            QuinceError::new(
                ErrorKind::Syntax,
                "unterminated string literal".to_owned(),
                Span::new(start_byte, self.byte),
            ),
        )
    }

    fn punctuation(c: char) -> (r: Option<TokenKind>)
        ensures
            match r {
                Some(kind) => single(c) == Some(kind@),
                None => single(c) is None,
            },
    {
        match c {
            '(' => Some(TokenKind::LParen),
            ')' => Some(TokenKind::RParen),
            '{' => Some(TokenKind::LBrace),
            '}' => Some(TokenKind::RBrace),
            '[' => Some(TokenKind::LBracket),
            ']' => Some(TokenKind::RBracket),
            ',' => Some(TokenKind::Comma),
            '.' => Some(TokenKind::Dot),
            ':' => Some(TokenKind::Colon),
            ';' => Some(TokenKind::Semi),
            '?' => Some(TokenKind::Question),
            '+' => Some(TokenKind::Plus),
            '-' => Some(TokenKind::Minus),
            '*' => Some(TokenKind::Star),
            '/' => Some(TokenKind::Slash),
            '%' => Some(TokenKind::Percent),
            '=' => Some(TokenKind::Assign),
            '!' => Some(TokenKind::Not),
            '<' => Some(TokenKind::Lt),
            '>' => Some(TokenKind::Gt),
            _ => None,
        }
    }

    fn pair(c: char, d: char) -> (r: Option<TokenKind>)
        ensures
            match r {
                Some(kind) => double(c, d) == Some(kind@),
                None => double(c, d) is None,
            },
    {
        match (c, d) {
            ('/', '/') => Some(TokenKind::SlashSlash),
            ('=', '=') => Some(TokenKind::Eq),
            ('!', '=') => Some(TokenKind::Ne),
            ('<', '=') => Some(TokenKind::Le),
            ('>', '=') => Some(TokenKind::Ge),
            ('&', '&') => Some(TokenKind::AndAnd),
            ('|', '|') => Some(TokenKind::OrOr),
            ('+', '=') => Some(TokenKind::PlusAssign),
            ('-', '=') => Some(TokenKind::MinusAssign),
            ('*', '=') => Some(TokenKind::StarAssign),
            ('/', '=') => Some(TokenKind::SlashAssign),
            ('%', '=') => Some(TokenKind::PercentAssign),
            _ => None,
        }
    }

    fn ident(&mut self) -> (r: TokenKind)
        requires
            old(self).inv(),
            old(self).pos < old(self).chars@.len(),
        ensures
            final(self).inv(),
            final(self).chars == old(self).chars,
            final(self).pos > old(self).pos,
            final(self).pos == name_end(old(self).chars@, old(self).pos + 1),
            ({
                let word = old(self).chars@.subrange(old(self).pos as int, final(self).pos as int);
                r@ == match keyword_of(word) {
                    Some(kind) => kind,
                    None => TokenKindV::Ident(word),
                }
            }),
    {
        let start: usize = self.pos;
        self.advance();
        self.skip_name();
        let word = string_of(&self.chars, start, self.pos);
        match TokenKind::keyword(word.as_str()) {
            Some(kind) => kind,
            None => TokenKind::Ident(word),
        }
    }

    fn token(&mut self) -> (r: Result<TokenKind, QuinceError>)
        requires
            old(self).inv(),
            old(self).pos < old(self).chars@.len(),
        ensures
            final(self).inv(),
            final(self).chars == old(self).chars,
            match r {
                Ok(kind) => final(self).pos > old(self).pos && token_at(
                    old(self).chars@,
                    old(self).pos as int,
                ) == Ok::<(TokenKindV, int), ErrV>((kind@, final(self).pos as int)),
                Err(e) => token_at(old(self).chars@, old(self).pos as int) == Err::<
                    (TokenKindV, int),
                    ErrV,
                >(e@),
            },
    {
        let start: usize = self.pos;
        let start_byte: usize = self.byte;
        let c: char = self.chars[start];
        let len: usize = self.chars.len();
        if start + 1 < len {
            if let Some(kind) = Cursor::pair(c, self.chars[start + 1]) {
                self.advance();
                self.advance();
                return Ok(kind);
            }
        }
        if let Some(kind) = Cursor::punctuation(c) {
            self.advance();
            return Ok(kind);
        }
        if c == '&' || c == '|' {
            self.advance();
            let mut message = String::from_str("unexpected '");
            push_char(&mut message, c);
            assert(message@ =~= "unexpected '"@ + seq![c]);
            message.append("' (did you mean '");
            let ghost before = message@;
            push_char(&mut message, c);
            assert(message@ =~= before + seq![c]);
            push_char(&mut message, c);
            assert(message@ =~= before + seq![c] + seq![c]);
            message.append("'?)");
            return Err(
                QuinceError::new(ErrorKind::Syntax, message, Span::new(start_byte, self.byte)),
            );
        }
        if c == '"' {
            self.advance();
            return self.string(start, start_byte);
        }
        if c >= '0' && c <= '9' {
            return self.number();
        }
        if c == '_' || is_alphabetic(c) {
            return Ok(self.ident());
        }
        self.advance();
        let mut message = String::from_str("unexpected character '");
        push_char(&mut message, c);
        assert(message@ =~= "unexpected character '"@ + seq![c]);
        message.append("'");
        Err(QuinceError::new(ErrorKind::Syntax, message, Span::new(start_byte, self.byte)))
    }
}

impl<'a> Lexer<'a> {
    pub fn new(src: &'a str) -> (r: Self)
        ensures
            r.src@ == src@,
    {
        Lexer { src }
    }

    /// Consumes the whole input, producing tokens terminated by the end of it.
    pub fn tokenize(self) -> (r: Result<Vec<Token>, QuinceError>)
        ensures
            match r {
                Ok(tokens) => tokens_of(self.src@) == Ok::<Seq<TokenV>, ErrV>(
                    tokens_view(tokens@),
                ),
                Err(e) => tokens_of(self.src@) == Err::<Seq<TokenV>, ErrV>(e@),
            },
    {
        let chars = chars_of(self.src);
        let ghost cs = chars@;
        let mut cursor = Cursor { chars, pos: 0, byte: 0 };
        let mut tokens: Vec<Token> = Vec::new();
        assert(tokens_view(tokens@) =~= Seq::empty());
        loop
            invariant
                cursor.inv(),
                cursor.chars@ == cs,
                cs == self.src@,
                tokens_of(cs) == tokens_from(cs, cursor.pos as int, tokens_view(tokens@)),
            decreases cs.len() - cursor.pos,
        {
            let newline_before = cursor.skip_trivia();
            let start: usize = cursor.byte;
            let ghost at = cursor.pos as int;
            let ghost done = tokens_view(tokens@);
            if cursor.pos >= cursor.chars.len() {
                let last = Token {
                    kind: TokenKind::Eof,
                    span: Span::new(start, start),
                    newline_before,
                };
                tokens.push(last);
                assert(tokens_view(tokens@) =~= done.push(last@));
                return Ok(tokens);
            }
            match cursor.token() {
                Ok(kind) => {
                    let one = Token { kind, span: Span::new(start, cursor.byte), newline_before };
                    tokens.push(one);
                    assert(tokens_view(tokens@) =~= done.push(one@));
                },
                Err(e) => {
                    return Err(e);
                },
            }
        }
    }
}

// -- numbers in other texts -------------------------------------------------------------

/// The number a whole text writes, and whether a minus stands in front of it.
pub open spec fn number_of(s: Seq<char>) -> Option<(bool, TokenKindV)> {
    let from: int = if s.len() > 0 && (s[0] == '-' || s[0] == '+') {
        1
    } else {
        0
    };
    if from < s.len() && is_digit(s[from]) {
        match number_at(s, from) {
            Ok((kind, end)) => if end == s.len() {
                Some((s[0] == '-', kind))
            } else {
                None
            },
            Err(_) => None,
        }
    } else {
        None
    }
}

/// A number is written without its sign.
pub proof fn lemma_number_is_positive(s: Seq<char>)
    ensures
        number_of(s) matches Some((_, TokenKindV::Int(n))) ==> n >= 0,
{
}

/// [`number_of`], computed.
pub(crate) fn read_number(text: &str) -> (r: Option<(bool, TokenKind)>)
    ensures
        match r {
            Some((minus, kind)) => number_of(text@) == Some((minus, kind@)),
            None => number_of(text@) is None,
        },
{
    let chars = chars_of(text);
    let signed = chars.len() > 0 && (chars[0] == '-' || chars[0] == '+');
    let minus = chars.len() > 0 && chars[0] == '-';
    let mut cursor = Cursor { chars, pos: 0, byte: 0 };
    if signed {
        cursor.advance();
    }
    let len: usize = cursor.chars.len();
    if cursor.pos < len && cursor.chars[cursor.pos] >= '0' && cursor.chars[cursor.pos] <= '9' {
        match cursor.number() {
            Ok(kind) => if cursor.pos == len {
                Some((minus, kind))
            } else {
                None
            },
            Err(_) => None,
        }
    } else {
        None
    }
}

// -- laws ------------------------------------------------------------------------------------

/// Whether tokens come in the order of a text: each ends where the next may start, and none
/// reaches past the end.
pub open spec fn in_order(cs: Seq<char>, ts: Seq<TokenV>) -> bool {
    &&& forall|i: int|
        0 <= i < ts.len() ==> (#[trigger] ts[i]).span.start <= ts[i].span.end && ts[i].span.end <= offset(
            cs,
            cs.len() as int,
        )
    &&& forall|i: int, j: int|
        0 <= i < j < ts.len() ==> (#[trigger] ts[i]).span.end <= (#[trigger] ts[j]).span.start
}

proof fn lemma_trivia(cs: Seq<char>, i: int, newline: bool, comment: bool)
    requires
        0 <= i <= cs.len(),
    ensures
        i <= trivia(cs, i, newline, comment).0 <= cs.len(),
    decreases cs.len() - i,
{
    if i < cs.len() {
        if cs[i] == '\n' {
            lemma_trivia(cs, i + 1, true, false);
        } else if comment || whitespace(cs[i]) {
            lemma_trivia(cs, i + 1, newline, comment);
        } else if cs[i] == '#' {
            lemma_trivia(cs, i + 1, newline, true);
        }
    }
}

proof fn lemma_ends(cs: Seq<char>, i: int)
    requires
        0 <= i <= cs.len(),
    ensures
        i <= digits_end(cs, i) <= cs.len(),
        i <= name_end(cs, i) <= cs.len(),
    decreases cs.len() - i,
{
    if i < cs.len() {
        lemma_ends(cs, i + 1);
    }
}

proof fn lemma_string_end(cs: Seq<char>, start: int, i: int, done: Seq<char>)
    requires
        0 <= i <= cs.len(),
    ensures
        string_from(cs, start, i, done) matches Ok((_, end)) ==> i < end <= cs.len(),
    decreases cs.len() - i,
{
    if i < cs.len() && cs[i] != '"' {
        if cs[i] == '\\' {
            if i + 1 < cs.len() {
                match escaped(cs[i + 1]) {
                    Some(c) => lemma_string_end(cs, start, i + 2, done.push(c)),
                    None => {},
                }
            }
        } else {
            lemma_string_end(cs, start, i + 1, done.push(cs[i]));
        }
    }
}

/// A token takes at least a character, and none past the end.
proof fn lemma_token_end(cs: Seq<char>, i: int)
    requires
        0 <= i < cs.len(),
    ensures
        token_at(cs, i) matches Ok((_, end)) ==> i < end <= cs.len(),
{
    lemma_ends(cs, i + 1);
    lemma_string_end(cs, i, i + 1, Seq::empty());
    let whole = digits_end(cs, i);
    lemma_ends(cs, i);
    if whole + 1 < cs.len() {
        lemma_ends(cs, whole + 1);
    }
}

proof fn lemma_tokens(cs: Seq<char>, i: int, done: Seq<TokenV>)
    requires
        0 <= i <= cs.len(),
        offset(cs, cs.len() as int) <= usize::MAX,
        in_order(cs, done),
        forall|k: int| 0 <= k < done.len() ==> (#[trigger] done[k]).span.end <= offset(cs, i),
    ensures
        tokens_from(cs, i, done) matches Ok(ts) ==> {
            &&& ts.len() > done.len()
            &&& ts.take(done.len() as int) == done
            &&& ts.last().kind is Eof
            &&& in_order(cs, ts)
        },
    decreases cs.len() - i,
{
    lemma_trivia(cs, i, false, false);
    let (at, newline) = trivia(cs, i, false, false);
    lemma_offset_monotonic(cs, i, at);
    lemma_offset_monotonic(cs, at, cs.len() as int);
    if at >= cs.len() {
        let eof = TokenV { kind: TokenKindV::Eof, span: span_of(cs, at, at), newline_before: newline };
        let ts = done.push(eof);
        assert(tokens_from(cs, i, done) == Ok::<Seq<TokenV>, ErrV>(ts));
        assert(ts.take(done.len() as int) =~= done);
        lemma_one_more(cs, done, eof, offset(cs, i) as int);
    } else {
        match token_at(cs, at) {
            Err(e) => {},
            Ok((kind, end)) => {
                lemma_token_end(cs, at);
                lemma_offset_monotonic(cs, at, end);
                lemma_offset_monotonic(cs, end, cs.len() as int);
                let one = TokenV { kind, span: span_of(cs, at, end), newline_before: newline };
                lemma_one_more(cs, done, one, offset(cs, i) as int);
                let more = done.push(one);
                assert forall|k: int| 0 <= k < more.len() implies (#[trigger] more[k]).span.end <= offset(cs, end) by {
                    if k < done.len() {
                        assert(more[k] == done[k]);
                    }
                }
                lemma_tokens(cs, end, more);
                match tokens_from(cs, end, more) {
                    Ok(ts) => {
                        assert(ts.take(done.len() as int) =~= ts.take(more.len() as int).take(done.len() as int));
                        assert(more.take(done.len() as int) =~= done);
                    },
                    Err(e) => {},
                }
            },
        }
    }
}

proof fn lemma_one_more(cs: Seq<char>, done: Seq<TokenV>, one: TokenV, reached: int)
    requires
        in_order(cs, done),
        forall|k: int| 0 <= k < done.len() ==> (#[trigger] done[k]).span.end <= reached,
        reached <= one.span.start <= one.span.end <= offset(cs, cs.len() as int),
    ensures
        in_order(cs, done.push(one)),
{
    let ts = done.push(one);
    assert forall|i: int| 0 <= i < ts.len() implies (#[trigger] ts[i]).span.start <= ts[i].span.end && ts[i].span.end
        <= offset(cs, cs.len() as int) by {
        if i < done.len() {
            assert(ts[i] == done[i]);
        }
    }
    assert forall|i: int, j: int| 0 <= i < j < ts.len() implies (#[trigger] ts[i]).span.end <= (
    #[trigger] ts[j]).span.start by {
        assert(ts[i] == done[i]);
        if j < done.len() {
            assert(ts[j] == done[j]);
        }
    }
}

/// The tokens of a text come in its order, none of them over another, and the last of them is
/// the end of the text.
pub proof fn law_tokens_come_in_the_order_of_the_text(cs: Seq<char>)
    requires
        offset(cs, cs.len() as int) <= usize::MAX,
    ensures
        tokens_of(cs) matches Ok(ts) ==> ts.len() > 0 && ts.last().kind is Eof && in_order(cs, ts),
{
    lemma_tokens(cs, 0, Seq::empty());
}

// -- between the tokens ------------------------------------------------------------------------

/// Whether a comment that a `#` opens at `k` goes on to `j`.
pub open spec fn comment_from(cs: Seq<char>, k: int, j: int) -> bool {
    cs[k] == '#' && forall|m: int| k <= m <= j ==> #[trigger] cs[m] != '\n'
}

/// Whether a character stands in a comment that was opened at `from` or behind it.
pub open spec fn in_comment(cs: Seq<char>, from: int, j: int) -> bool {
    exists|k: int| from <= k <= j && #[trigger] comment_from(cs, k, j)
}

/// Whether nothing stands between two places but white space and comments, and whether there
/// is a line break among it.
pub open spec fn is_gap(cs: Seq<char>, from: int, to: int, newline: bool) -> bool {
    &&& 0 <= from <= to <= cs.len()
    &&& forall|j: int| from <= j < to ==> whitespace(#[trigger] cs[j]) || in_comment(cs, from, j)
    &&& newline <==> exists|j: int| from <= j < to && #[trigger] cs[j] == '\n'
}

/// Where the token before the `i`th ends, by characters.
pub open spec fn reached(places: Seq<(int, int)>, i: int) -> int {
    if 0 < i <= places.len() {
        places[i - 1].1
    } else {
        0
    }
}

/// Whether tokens stand at these places of a text, with nothing but gaps between them.
pub open spec fn stand_at(cs: Seq<char>, ts: Seq<TokenV>, places: Seq<(int, int)>) -> bool {
    &&& places.len() == ts.len()
    &&& forall|i: int|
        0 <= i < ts.len() ==> stands_at(cs, #[trigger] ts[i], reached(places, i), places[i].0, places[i].1)
}

/// Whether a token stands at a place, behind a gap from `from` on.
pub open spec fn stands_at(cs: Seq<char>, t: TokenV, from: int, start: int, end: int) -> bool {
    &&& t.span == span_of(cs, start, end)
    &&& start <= end <= cs.len()
    &&& is_gap(cs, from, start, t.newline_before)
}

proof fn lemma_gap_grows(cs: Seq<char>, from: int, i: int, newline: bool)
    requires
        is_gap(cs, from, i, newline),
        i < cs.len(),
        whitespace(cs[i]) || in_comment(cs, from, i),
    ensures
        is_gap(cs, from, i + 1, newline || cs[i] == '\n'),
{
}

proof fn lemma_comment_goes_on(cs: Seq<char>, from: int, i: int)
    requires
        in_comment(cs, from, i - 1),
        cs[i] != '\n',
    ensures
        in_comment(cs, from, i),
{
    let k = choose|k: int| from <= k <= i - 1 && #[trigger] comment_from(cs, k, i - 1);
    assert(comment_from(cs, k, i));
}

proof fn lemma_gap(cs: Seq<char>, from: int, i: int, newline: bool, comment: bool)
    requires
        is_gap(cs, from, i, newline),
        comment ==> i > from && in_comment(cs, from, i - 1),
    ensures
        ({
            let (at, seen) = trivia(cs, i, newline, comment);
            is_gap(cs, from, at, seen)
        }),
    decreases cs.len() - i,
{
    if i < cs.len() {
        if cs[i] == '\n' {
            lemma_gap_grows(cs, from, i, newline);
            lemma_gap(cs, from, i + 1, true, false);
        } else if comment || whitespace(cs[i]) {
            if comment {
                lemma_comment_goes_on(cs, from, i);
            }
            lemma_gap_grows(cs, from, i, newline);
            lemma_gap(cs, from, i + 1, newline, comment);
        } else if cs[i] == '#' {
            assert(comment_from(cs, i, i));
            lemma_gap_grows(cs, from, i, newline);
            lemma_gap(cs, from, i + 1, newline, true);
        }
    }
}

/// No token but the one at the end is the end of the text.
proof fn lemma_no_end(cs: Seq<char>, i: int)
    requires
        0 <= i < cs.len(),
    ensures
        token_at(cs, i) matches Ok((kind, _)) ==> !(kind is Eof),
{
    lemma_string_kind(cs, i, i + 1, Seq::empty());
}

proof fn lemma_string_kind(cs: Seq<char>, start: int, i: int, done: Seq<char>)
    requires
        0 <= i,
    ensures
        string_from(cs, start, i, done) matches Ok((kind, _)) ==> kind is Str,
    decreases cs.len() - i,
{
    if i < cs.len() && cs[i] != '"' {
        if cs[i] == '\\' {
            if i + 1 < cs.len() {
                match escaped(cs[i + 1]) {
                    Some(c) => lemma_string_kind(cs, start, i + 2, done.push(c)),
                    None => {},
                }
            }
        } else {
            lemma_string_kind(cs, start, i + 1, done.push(cs[i]));
        }
    }
}

proof fn lemma_places(cs: Seq<char>, i: int, done: Seq<TokenV>, places: Seq<(int, int)>) -> (r: Seq<(int, int)>)
    requires
        0 <= i <= cs.len(),
        stand_at(cs, done, places),
        reached(places, places.len() as int) == i,
        forall|k: int| 0 <= k < done.len() ==> !((#[trigger] done[k]).kind is Eof),
        tokens_from(cs, i, done) is Ok,
    ensures
        ({
            let ts = tokens_from(cs, i, done)->Ok_0;
            &&& ts.len() > 0
            &&& stand_at(cs, ts, r)
            &&& r.last() == (cs.len() as int, cs.len() as int)
            &&& ts.last().kind is Eof
            &&& forall|k: int| 0 <= k < ts.len() - 1 ==> !((#[trigger] ts[k]).kind is Eof)
        }),
    decreases cs.len() - i,
{
    let (at, newline) = trivia(cs, i, false, false);
    lemma_trivia(cs, i, false, false);
    assert(is_gap(cs, i, i, false));
    lemma_gap(cs, i, i, false, false);
    if at >= cs.len() {
        let eof = TokenV { kind: TokenKindV::Eof, span: span_of(cs, at, at), newline_before: newline };
        let ts = done.push(eof);
        let r = places.push((at, at));
        assert forall|k: int| 0 <= k < ts.len() implies stands_at(
            cs,
            #[trigger] ts[k],
            reached(r, k),
            r[k].0,
            r[k].1,
        ) by {
            if k < done.len() {
                assert(ts[k] == done[k]);
                assert(r[k] == places[k]);
                assert(reached(r, k) == reached(places, k));
            } else {
                assert(reached(r, k) == i);
            }
        }
        r
    } else {
        let (kind, end) = token_at(cs, at)->Ok_0;
        lemma_token_end(cs, at);
        lemma_no_end(cs, at);
        let one = TokenV { kind, span: span_of(cs, at, end), newline_before: newline };
        let ts = done.push(one);
        let r = places.push((at, end));
        assert forall|k: int| 0 <= k < ts.len() implies stands_at(
            cs,
            #[trigger] ts[k],
            reached(r, k),
            r[k].0,
            r[k].1,
        ) by {
            if k < done.len() {
                assert(ts[k] == done[k]);
                assert(r[k] == places[k]);
                assert(reached(r, k) == reached(places, k));
            } else {
                assert(reached(r, k) == i);
            }
        }
        lemma_places(cs, end, ts, r)
    }
}

/// The tokens of a text cover it: between any two, before the first and behind the last stand
/// only white space and comments, and a token knows whether a line break stands before it.
/// Just one of them is the end of the text, the last.
pub proof fn law_nothing_but_gaps_stands_between_tokens(cs: Seq<char>)
    requires
        tokens_of(cs) is Ok,
    ensures
        ({
            let ts = tokens_of(cs)->Ok_0;
            &&& ts.len() > 0
            &&& ts.last().kind is Eof
            &&& forall|k: int| 0 <= k < ts.len() - 1 ==> !((#[trigger] ts[k]).kind is Eof)
            &&& exists|places: Seq<(int, int)>| #[trigger]
                stand_at(cs, ts, places) && places.last() == (cs.len() as int, cs.len() as int)
        }),
{
    let places = lemma_places(cs, 0, Seq::empty(), Seq::empty());
    assert(stand_at(cs, tokens_of(cs)->Ok_0, places));
}

// -- writing a text as a literal ------------------------------------------------------------------

/// How a character is written in a literal.
pub open spec fn written_char(c: char) -> Seq<char> {
    if c == '\n' {
        seq!['\\', 'n']
    } else if c == '\t' {
        seq!['\\', 't']
    } else if c == '\r' {
        seq!['\\', 'r']
    } else if c == '\0' {
        seq!['\\', '0']
    } else if c == '\\' {
        seq!['\\', '\\']
    } else if c == '"' {
        seq!['\\', '"']
    } else {
        seq![c]
    }
}

/// How the characters of a text from `i` on are written in a literal.
pub open spec fn written_from(text: Seq<char>, i: int) -> Seq<char>
    decreases text.len() - i,
{
    if i < 0 || i >= text.len() {
        Seq::empty()
    } else {
        written_char(text[i]) + written_from(text, i + 1)
    }
}

/// A text as a literal: between quotes, with what a literal cannot hold behind backslashes.
pub open spec fn literal(text: Seq<char>) -> Seq<char> {
    seq!['"'] + written_from(text, 0) + seq!['"']
}

proof fn lemma_literal(text: Seq<char>, cs: Seq<char>, at: int, i: int)
    requires
        0 <= i <= text.len(),
        0 <= at <= cs.len(),
        cs.skip(at) == written_from(text, i) + seq!['"'],
    ensures
        string_from(cs, 0, at, text.take(i)) == Ok::<(TokenKindV, int), ErrV>(
            (TokenKindV::Str(text), cs.len() as int),
        ),
    decreases text.len() - i,
{
    let rest = cs.skip(at);
    assert(rest.len() == cs.len() - at);
    if i == text.len() {
        assert(rest =~= seq!['"']);
        assert(cs[at] == rest[0]);
        assert(text.take(i) =~= text);
    } else {
        let c = text[i];
        let one = written_char(c);
        let after = written_from(text, i + 1) + seq!['"'];
        assert(rest =~= one + after);
        let next = at + one.len();
        assert(cs.skip(next) =~= rest.skip(one.len() as int));
        assert((one + after).skip(one.len() as int) =~= after);
        assert(cs[at] == rest[0] && rest[0] == one[0]);
        assert(text.take(i).push(c) =~= text.take(i + 1));
        if one.len() == 2 {
            assert(cs[at + 1] == rest[1] && rest[1] == one[1]);
            assert(escaped(one[1]) == Some(c));
        }
        lemma_literal(text, cs, at + one.len(), i + 1);
    }
}

/// Every text can be written as a literal, and lexing the literal gives the text back.
pub proof fn law_lexing_undoes_quoting(text: Seq<char>)
    ensures
        token_at(literal(text), 0) == Ok::<(TokenKindV, int), ErrV>(
            (TokenKindV::Str(text), literal(text).len() as int),
        ),
        tokens_of(literal(text)) is Ok,
        tokens_of(literal(text))->Ok_0.len() == 2,
        tokens_of(literal(text))->Ok_0[0].kind == TokenKindV::Str(text),
{
    let cs = literal(text);
    assert(cs[0] == '"');
    assert(cs.skip(1) =~= written_from(text, 0) + seq!['"']);
    assert(text.take(0) =~= Seq::empty());
    lemma_literal(text, cs, 1, 0);
    assert(trivia(cs, 0, false, false) == (0int, false));
    let one = TokenV { kind: TokenKindV::Str(text), span: span_of(cs, 0, cs.len() as int), newline_before: false };
    let done = Seq::empty().push(one);
    assert(trivia(cs, cs.len() as int, false, false) == (cs.len() as int, false));
    assert(tokens_of(cs) == tokens_from(cs, cs.len() as int, done));
}

} // verus!
