//! The tokenizer of assembly source text.
use vstd::prelude::*;

verus! {

/// The value of a token.
#[derive(Debug, PartialEq)]
pub enum TokenValue {
    Dot,
    LT,
    GT,
    LParen,
    RParen,
    Comma,
    Colon,
    Hash,
    Newline,
    Symbol(String),
    /// `%bbbb`
    Bin(u16),
    /// `0ooo`
    Oct(u16),
    /// `ddd`
    Dec(u16),
    /// `$hh`
    Hex(u16),
    String(String),
    /// Text that is no token: an unknown character, a number that does not
    /// fit in 16 bits or has no digits, or a string without its closing quote.
    Error(String),
}

/// A token's value as mathematical text.
pub enum TokenModel {
    Dot,
    LT,
    GT,
    LParen,
    RParen,
    Comma,
    Colon,
    Hash,
    Newline,
    Symbol(Seq<char>),
    Bin(u16),
    Oct(u16),
    Dec(u16),
    Hex(u16),
    Str(Seq<char>),
    Error(Seq<char>),
}

impl View for TokenValue {
    type V = TokenModel;

    open spec fn view(&self) -> TokenModel {
        match self {
            TokenValue::Dot => TokenModel::Dot,
            TokenValue::LT => TokenModel::LT,
            TokenValue::GT => TokenModel::GT,
            TokenValue::LParen => TokenModel::LParen,
            TokenValue::RParen => TokenModel::RParen,
            TokenValue::Comma => TokenModel::Comma,
            TokenValue::Colon => TokenModel::Colon,
            TokenValue::Hash => TokenModel::Hash,
            TokenValue::Newline => TokenModel::Newline,
            TokenValue::Symbol(s) => TokenModel::Symbol(s@),
            TokenValue::Bin(v) => TokenModel::Bin(*v),
            TokenValue::Oct(v) => TokenModel::Oct(*v),
            TokenValue::Dec(v) => TokenModel::Dec(*v),
            TokenValue::Hex(v) => TokenModel::Hex(*v),
            TokenValue::String(s) => TokenModel::Str(s@),
            TokenValue::Error(s) => TokenModel::Error(s@),
        }
    }
}

/// A token and the character positions `start..end` of its text.
#[derive(Debug)]
pub struct Token {
    pub token_value: TokenValue,
    pub start: usize,
    pub end: usize,
}

/// Blanks between tokens; a newline is a token of its own.
pub open spec fn is_space(c: char) -> bool {
    c == ' ' || c == '\t' || c == '\r'
}

pub open spec fn is_ident_start(c: char) -> bool {
    ('a' <= c && c <= 'z') || ('A' <= c && c <= 'Z') || c == '_'
}

pub open spec fn is_ident_char(c: char) -> bool {
    is_ident_start(c) || ('0' <= c && c <= '9')
}

/// The value of a digit, in any base up to 16.
pub open spec fn digit_value(c: char) -> Option<nat> {
    if '0' <= c && c <= '9' {
        Some((c as u32 - '0' as u32) as nat)
    } else if 'a' <= c && c <= 'f' {
        Some((c as u32 - 'a' as u32 + 10) as nat)
    } else if 'A' <= c && c <= 'F' {
        Some((c as u32 - 'A' as u32 + 10) as nat)
    } else {
        None
    }
}

pub open spec fn is_digit_in(c: char, base: nat) -> bool {
    digit_value(c) is Some && digit_value(c)->Some_0 < base
}

/// The value of a sequence of digits in `base`, most significant first.
pub open spec fn digits_value(d: Seq<char>, base: nat) -> nat
    decreases d.len(),
{
    if d.len() == 0 {
        0
    } else {
        digits_value(d.drop_last(), base) * base + digit_value(d.last())->Some_0
    }
}

/// The first position at or after `pos` that is not blank.
pub open spec fn skip_spaces(s: Seq<char>, pos: int) -> int
    decreases s.len() - pos,
{
    if 0 <= pos < s.len() && is_space(s[pos]) {
        skip_spaces(s, pos + 1)
    } else {
        pos
    }
}

/// The end of the run of digits of `base` that starts at `pos`.
pub open spec fn digits_end(s: Seq<char>, pos: int, base: nat) -> int
    decreases s.len() - pos,
{
    if 0 <= pos < s.len() && is_digit_in(s[pos], base) {
        digits_end(s, pos + 1, base)
    } else {
        pos
    }
}

/// The end of the run of identifier characters that starts at `pos`.
pub open spec fn ident_end(s: Seq<char>, pos: int) -> int
    decreases s.len() - pos,
{
    if 0 <= pos < s.len() && is_ident_char(s[pos]) {
        ident_end(s, pos + 1)
    } else {
        pos
    }
}

/// The position of the first `"` at or after `pos`, or the end of the text.
pub open spec fn quote_at_or_end(s: Seq<char>, pos: int) -> int
    decreases s.len() - pos,
{
    if 0 <= pos < s.len() && s[pos] != '"' {
        quote_at_or_end(s, pos + 1)
    } else {
        pos
    }
}

/// A number token of `base` with the given digits; `text` is its whole text.
pub open spec fn number_model(base: nat, digits: Seq<char>, text: Seq<char>) -> TokenModel {
    if digits.len() == 0 || digits_value(digits, base) > 0xFFFF {
        TokenModel::Error(text)
    } else {
        let v = digits_value(digits, base) as u16;
        if base == 2 {
            TokenModel::Bin(v)
        } else if base == 8 {
            TokenModel::Oct(v)
        } else if base == 10 {
            TokenModel::Dec(v)
        } else {
            TokenModel::Hex(v)
        }
    }
}

/// The token whose text starts at `start` (not blank, inside the text), and
/// the position just past it.
pub open spec fn token_at(s: Seq<char>, start: int) -> (TokenModel, int) {
    let c = s[start];
    if c == '.' {
        (TokenModel::Dot, start + 1)
    } else if c == '<' {
        (TokenModel::LT, start + 1)
    } else if c == '>' {
        (TokenModel::GT, start + 1)
    } else if c == '(' {
        (TokenModel::LParen, start + 1)
    } else if c == ')' {
        (TokenModel::RParen, start + 1)
    } else if c == ',' {
        (TokenModel::Comma, start + 1)
    } else if c == ':' {
        (TokenModel::Colon, start + 1)
    } else if c == '#' {
        (TokenModel::Hash, start + 1)
    } else if c == '\n' {
        (TokenModel::Newline, start + 1)
    } else if is_ident_start(c) {
        let e = ident_end(s, start + 1);
        (TokenModel::Symbol(s.subrange(start, e)), e)
    } else if c == '%' {
        let e = digits_end(s, start + 1, 2);
        (number_model(2, s.subrange(start + 1, e), s.subrange(start, e)), e)
    } else if c == '$' {
        let e = digits_end(s, start + 1, 16);
        (number_model(16, s.subrange(start + 1, e), s.subrange(start, e)), e)
    } else if c == '0' {
        let e = digits_end(s, start + 1, 8);
        (number_model(8, s.subrange(start, e), s.subrange(start, e)), e)
    } else if is_digit_in(c, 10) {
        let e = digits_end(s, start, 10);
        (number_model(10, s.subrange(start, e), s.subrange(start, e)), e)
    } else if c == '"' {
        let e = quote_at_or_end(s, start + 1);
        if e < s.len() {
            (TokenModel::Str(s.subrange(start + 1, e)), e + 1)
        } else {
            (TokenModel::Error(s.subrange(start, e)), e)
        }
    } else {
        (TokenModel::Error(seq![c]), start + 1)
    }
}

/// The value of a digit, in any base up to 16.
fn digit_of(c: char) -> (r: Option<u32>)
    ensures
        r is Some <==> digit_value(c) is Some,
        r is Some ==> r->Some_0 == digit_value(c)->Some_0 && r->Some_0 < 16,
{
    if '0' <= c && c <= '9' {
        Some(c as u32 - '0' as u32)
    } else if 'a' <= c && c <= 'f' {
        Some(c as u32 - 'a' as u32 + 10)
    } else if 'A' <= c && c <= 'F' {
        Some(c as u32 - 'A' as u32 + 10)
    } else {
        None
    }
}

fn is_ident_char_exec(c: char) -> (r: bool)
    ensures
        r == is_ident_char(c),
{
    ('a' <= c && c <= 'z') || ('A' <= c && c <= 'Z') || c == '_' || ('0' <= c && c <= '9')
}

/// A tokenizer over a source text.
pub struct Lexer<'a> {
    src: &'a str,
    chars: Vec<char>,
    pos: usize,
}

impl<'a> Lexer<'a> {
    /// The characters of the source text.
    pub closed spec fn text(&self) -> Seq<char> {
        self.chars@
    }

    /// The position of the next character to read.
    pub closed spec fn position(&self) -> int {
        self.pos as int
    }

    pub closed spec fn wf(&self) -> bool {
        self.chars@ == self.src@ && self.pos <= self.chars@.len()
    }

    /// A lexer at the start of `src`.
    pub fn new(src: &'a str) -> (r: Lexer<'a>)
        ensures
            r.wf(),
            r.text() == src@,
            r.position() == 0,
    {
        let n = src.unicode_len();
        let mut chars: Vec<char> = Vec::new();
        let mut i: usize = 0;
        while i < n
            invariant
                n == src@.len(),
                i <= n,
                chars@ == src@.take(i as int),
            decreases n - i,
        {
            chars.push(src.get_char(i));
            i = i + 1;
            assert(chars@ =~= src@.take(i as int));
        }
        assert(src@.take(n as int) =~= src@);
        Lexer { src, chars, pos: 0 }
    }

    /// The text between two positions, as a `String`.
    fn text_between(&self, from: usize, to: usize) -> (r: String)
        requires
            self.wf(),
            from <= to <= self.text().len(),
        ensures
            r@ == self.text().subrange(from as int, to as int),
    {
        self.src.substring_char(from, to).to_owned()
    }

    fn skip_blanks(&self) -> (r: usize)
        requires
            self.wf(),
        ensures
            r == skip_spaces(self.text(), self.position()),
            self.position() <= r <= self.text().len(),
    {
        let mut i = self.pos;
        while i < self.chars.len() && (self.chars[i] == ' ' || self.chars[i] == '\t' || self.chars[i] == '\r')
            invariant
                self.wf(),
                self.pos <= i <= self.chars@.len(),
                skip_spaces(self.text(), i as int) == skip_spaces(self.text(), self.position()),
            decreases self.chars@.len() - i,
        {
            i = i + 1;
        }
        i
    }

    fn scan_ident(&self, from: usize) -> (r: usize)
        requires
            self.wf(),
            from <= self.text().len(),
        ensures
            r == ident_end(self.text(), from as int),
            from <= r <= self.text().len(),
    {
        let mut i = from;
        while i < self.chars.len() && is_ident_char_exec(self.chars[i])
            invariant
                self.wf(),
                from <= i <= self.chars@.len(),
                ident_end(self.text(), i as int) == ident_end(self.text(), from as int),
            decreases self.chars@.len() - i,
        {
            i = i + 1;
        }
        i
    }

    fn scan_quote(&self, from: usize) -> (r: usize)
        requires
            self.wf(),
            from <= self.text().len(),
        ensures
            r == quote_at_or_end(self.text(), from as int),
            from <= r <= self.text().len(),
    {
        let mut i = from;
        while i < self.chars.len() && self.chars[i] != '"'
            invariant
                self.wf(),
                from <= i <= self.chars@.len(),
                quote_at_or_end(self.text(), i as int) == quote_at_or_end(self.text(), from as int),
            decreases self.chars@.len() - i,
        {
            i = i + 1;
        }
        i
    }

    /// Scans the digits of `base` from `from`: their end, and their value,
    /// or a value above 0xFFFF when theirs is.
    fn scan_digits(&self, from: usize, base: u32) -> (r: (usize, u32))
        requires
            self.wf(),
            from <= self.text().len(),
            2 <= base <= 16,
        ensures
            r.0 == digits_end(self.text(), from as int, base as nat),
            from <= r.0 <= self.text().len(),
            r.1 <= 0xFFFF ==> r.1 == digits_value(self.text().subrange(from as int, r.0 as int), base as nat),
            r.1 > 0xFFFF <==> digits_value(self.text().subrange(from as int, r.0 as int), base as nat) > 0xFFFF,
    {
        let ghost s = self.text();
        let mut i = from;
        let mut val: u32 = 0;
        assert(s.subrange(from as int, from as int) =~= Seq::<char>::empty());
        while i < self.chars.len()
            invariant
                self.wf(),
                s == self.text(),
                2 <= base <= 16,
                from <= i <= self.chars@.len(),
                digits_end(s, i as int, base as nat) == digits_end(s, from as int, base as nat),
                val <= 0x10000 * 16,
                val <= 0xFFFF ==> val == digits_value(s.subrange(from as int, i as int), base as nat),
                val > 0xFFFF <==> digits_value(s.subrange(from as int, i as int), base as nat) > 0xFFFF,
            ensures
                from <= i <= self.chars@.len(),
                digits_end(s, from as int, base as nat) == i,
                val <= 0xFFFF ==> val == digits_value(s.subrange(from as int, i as int), base as nat),
                val > 0xFFFF <==> digits_value(s.subrange(from as int, i as int), base as nat) > 0xFFFF,
            decreases self.chars@.len() - i,
        {
            let d = match digit_of(self.chars[i]) {
                Some(d) => d,
                None => break,
            };
            if d >= base {
                break;
            }
            let ghost old_dv = digits_value(s.subrange(from as int, i as int), base as nat);
            assert(s.subrange(from as int, i + 1).drop_last() =~= s.subrange(from as int, i as int));
            assert(digits_value(s.subrange(from as int, i + 1), base as nat) == old_dv * base + d);
            assert(old_dv * base + d >= old_dv) by (nonlinear_arith)
                requires
                    base >= 2,
            ;
            if val <= 0xFFFF {
                assert(val * base + d <= 0x10000 * 16) by (nonlinear_arith)
                    requires
                        val <= 0xFFFF,
                        base <= 16,
                        d < 16,
                ;
                val = val * base + d;
            }
            i = i + 1;
        }
        (i, val)
    }

    /// Reads the next token, skipping blanks; `None` at the end of the text.
    pub fn next(&mut self) -> (r: Option<Token>)
        requires
            old(self).wf(),
        ensures
            final(self).wf(),
            final(self).text() == old(self).text(),
            ({
                let s = old(self).text();
                let p = skip_spaces(s, old(self).position());
                if p >= s.len() {
                    r is None
                } else {
                    &&& r is Some
                    &&& r->Some_0.token_value@ == token_at(s, p).0
                    &&& r->Some_0.start == p
                    &&& r->Some_0.end == token_at(s, p).1
                    &&& final(self).position() == token_at(s, p).1
                }
            }),
    {
        let start = self.skip_blanks();
        self.pos = start;
        if start >= self.chars.len() {
            return None;
        }
        let ghost s = self.text();
        let c = self.chars[start];
        let value: TokenValue;
        let end: usize;
        if c == '.' {
            value = TokenValue::Dot;
            end = start + 1;
        } else if c == '<' {
            value = TokenValue::LT;
            end = start + 1;
        } else if c == '>' {
            value = TokenValue::GT;
            end = start + 1;
        } else if c == '(' {
            value = TokenValue::LParen;
            end = start + 1;
        } else if c == ')' {
            value = TokenValue::RParen;
            end = start + 1;
        } else if c == ',' {
            value = TokenValue::Comma;
            end = start + 1;
        } else if c == ':' {
            value = TokenValue::Colon;
            end = start + 1;
        } else if c == '#' {
            value = TokenValue::Hash;
            end = start + 1;
        } else if c == '\n' {
            value = TokenValue::Newline;
            end = start + 1;
        } else if ('a' <= c && c <= 'z') || ('A' <= c && c <= 'Z') || c == '_' {
            end = self.scan_ident(start + 1);
            value = TokenValue::Symbol(self.text_between(start, end));
        } else if c == '%' {
            let (e, v) = self.scan_digits(start + 1, 2);
            end = e;
            value = self.number(2, start + 1, start, end, v);
        } else if c == '$' {
            let (e, v) = self.scan_digits(start + 1, 16);
            end = e;
            value = self.number(16, start + 1, start, end, v);
        } else if c == '0' {
            let (e, v) = self.scan_digits(start, 8);
            end = e;
            value = self.number(8, start, start, end, v);
        } else if '1' <= c && c <= '9' {
            let (e, v) = self.scan_digits(start, 10);
            end = e;
            value = self.number(10, start, start, end, v);
        } else if c == '"' {
            let e = self.scan_quote(start + 1);
            if e < self.chars.len() {
                value = TokenValue::String(self.text_between(start + 1, e));
                end = e + 1;
            } else {
                value = TokenValue::Error(self.text_between(start, e));
                end = e;
            }
        } else {
            value = TokenValue::Error(self.text_between(start, start + 1));
            end = start + 1;
            assert(s.subrange(start as int, start + 1) =~= seq![c]);
        }
        self.pos = end;
        Some(Token { token_value: value, start, end })
    }

    /// The number token of `base` whose digits are at `digits..end` and whose
    /// text is at `text..end`, from the value `scan_digits` gave.
    fn number(&self, base: u32, digits: usize, text: usize, end: usize, v: u32) -> (r: TokenValue)
        requires
            self.wf(),
            text <= digits <= end <= self.text().len(),
            base == 2 || base == 8 || base == 10 || base == 16,
            v <= 0xFFFF ==> v == digits_value(self.text().subrange(digits as int, end as int), base as nat),
            v > 0xFFFF <==> digits_value(self.text().subrange(digits as int, end as int), base as nat) > 0xFFFF,
        ensures
            r@ == number_model(
                base as nat,
                self.text().subrange(digits as int, end as int),
                self.text().subrange(text as int, end as int),
            ),
    {
        if digits == end || v > 0xFFFF {
            TokenValue::Error(self.text_between(text, end))
        } else if base == 2 {
            TokenValue::Bin(v as u16)
        } else if base == 8 {
            TokenValue::Oct(v as u16)
        } else if base == 10 {
            TokenValue::Dec(v as u16)
        } else {
            TokenValue::Hex(v as u16)
        }
    }
}

} // verus!
