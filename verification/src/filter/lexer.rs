//! Tokens of the filter language.

use vstd::prelude::*;

use crate::calendar::{
    chrono_parse_date, chrono_parse_datetime, from_parts, midnight, midnight_of, parse_date,
    parse_datetime, DateTime, DATETIME_LAYOUT,
};
use crate::dates::{digit_at, has_digit, has_mark, hyphenate, hyphenated, mark_at};
use crate::filter::number::CompareOp;
use crate::format::{byte_count, try_parse_byte_str};
use crate::pattern::{regex_compiles, Pattern};
use crate::text::{
    alphabetic, alphanumeric, digits_end, digits_to_u64, digits_value, from_chars, is_alphabetic,
    is_alphanumeric, is_ascii_letter, is_digit, is_digit_char, lemma_digits_end, same_text,
    skip_digits, to_chars, to_uppercase, trim_text, trimmed, uppercase,
};

verus! {

/// A token.
#[derive(Debug)]
pub enum Token {
    Num(i64),
    Str(String),
    ReStr(Pattern),
    Time(DateTime),
    Name(String),
    And,
    Or,
    Compare(CompareOp),
    Plus,
    Minus,
    Star,
    Slash,
    LParen,
    RParen,
    Eof,
}

/// The mathematical content of a [`Token`].
pub enum TokenView {
    Num(i64),
    Str(Seq<char>),
    ReStr(Seq<char>),
    Time(DateTime),
    Name(Seq<char>),
    And,
    Or,
    Compare(CompareOp),
    Plus,
    Minus,
    Star,
    Slash,
    LParen,
    RParen,
    Eof,
}

impl View for Token {
    type V = TokenView;

    open spec fn view(&self) -> TokenView {
        match self {
            Token::Num(n) => TokenView::Num(*n),
            Token::Str(s) => TokenView::Str(s@),
            Token::ReStr(p) => TokenView::ReStr(p@),
            Token::Time(at) => TokenView::Time(*at),
            Token::Name(s) => TokenView::Name(s@),
            Token::And => TokenView::And,
            Token::Or => TokenView::Or,
            Token::Compare(op) => TokenView::Compare(*op),
            Token::Plus => TokenView::Plus,
            Token::Minus => TokenView::Minus,
            Token::Star => TokenView::Star,
            Token::Slash => TokenView::Slash,
            Token::LParen => TokenView::LParen,
            Token::RParen => TokenView::RParen,
            Token::Eof => TokenView::Eof,
        }
    }
}

/// The contents of a list of tokens.
pub open spec fn token_views(v: Seq<Token>) -> Seq<TokenView> {
    v.map_values(|t: Token| t@)
}

// ── characters and runs ──────────────────────────────────────────────────

/// The blanks between tokens: space, tab, line feed, form feed and carriage return.
pub open spec fn is_blank(c: char) -> bool {
    c == ' ' || c == '\t' || c == '\n' || c == '\x0C' || c == '\r'
}

/// Where the run of blanks that starts at `i` ends.
pub open spec fn blanks_end(s: Seq<char>, i: int) -> int
    decreases s.len() - i,
{
    if 0 <= i < s.len() && is_blank(s[i]) {
        blanks_end(s, i + 1)
    } else {
        i
    }
}

/// Where the first `quote` at or behind `i` stands, or the end of the text.
pub open spec fn quote_at(s: Seq<char>, i: int, quote: char) -> int
    decreases s.len() - i,
{
    if 0 <= i < s.len() && s[i] != quote {
        quote_at(s, i + 1, quote)
    } else {
        i
    }
}

/// Where the run of ASCII letters that starts at `i` ends.
pub open spec fn letters_end(s: Seq<char>, i: int) -> int
    decreases s.len() - i,
{
    if 0 <= i < s.len() && is_ascii_letter(s[i]) {
        letters_end(s, i + 1)
    } else {
        i
    }
}

/// Where the run of letters, numbers and underscores that starts at `i` ends.
pub open spec fn name_end(s: Seq<char>, i: int) -> int
    decreases s.len() - i,
{
    if 0 <= i < s.len() && (alphanumeric(s[i]) || s[i] == '_') {
        name_end(s, i + 1)
    } else {
        i
    }
}

/// The characters that a date and a time of day are written with.
pub open spec fn in_date(c: char) -> bool {
    is_digit(c) || c == '-' || c == '.' || c == '/' || c == ' ' || c == ':'
}

/// Where the run of date characters that starts at `i` ends.
pub open spec fn date_end(s: Seq<char>, i: int) -> int
    decreases s.len() - i,
{
    if 0 <= i < s.len() && in_date(s[i]) {
        date_end(s, i + 1)
    } else {
        i
    }
}

/// A date starts at `i`: four digits, a mark, one or two digits, a mark and a digit.
pub open spec fn date_starts(s: Seq<char>, i: int) -> bool {
    &&& digit_at(s, i) && digit_at(s, i + 1) && digit_at(s, i + 2) && digit_at(s, i + 3)
    &&& mark_at(s, i + 4)
    &&& digit_at(s, i + 5)
    &&& (mark_at(s, i + 6) && digit_at(s, i + 7)) || (digit_at(s, i + 6) && mark_at(s, i + 7)
        && digit_at(s, i + 8))
}

// ── tokens with content ──────────────────────────────────────────────────

/// The text from `i` to the next `quote`, and where the text behind that quote starts. A text
/// that is not closed runs to the end.
pub open spec fn quoted(s: Seq<char>, i: int, quote: char) -> (Seq<char>, int) {
    let e = quote_at(s, i, quote);
    (
        s.subrange(i, e),
        if e < s.len() {
            e + 1
        } else {
            e
        },
    )
}

/// A regular expression, or a plain text where it does not compile.
pub open spec fn pattern_token(source: Seq<char>) -> TokenView {
    if regex_compiles(source) {
        TokenView::ReStr(source)
    } else {
        TokenView::Str(source)
    }
}

/// The 64-bit pattern of `n` as a signed number.
pub open spec fn as_signed(n: int) -> i64 {
    if n > i64::MAX {
        (n - 0x1_0000_0000_0000_0000) as i64
    } else {
        n as i64
    }
}

/// The number that starts with the digit at `i`, and where it ends: a size where the letters
/// behind the digits make one, else the digits alone. `None` where it is beyond 64 bits.
pub open spec fn number_token(s: Seq<char>, i: int) -> Option<(TokenView, int)> {
    let d = digits_end(s, i + 1);
    let l = letters_end(s, d);
    match byte_count(s.subrange(i, l)) {
        Some(n) => if n <= u64::MAX {
            Some((TokenView::Num(as_signed(n)), l))
        } else {
            None
        },
        None => if digits_value(s.subrange(i, d)) <= i64::MAX {
            Some((TokenView::Num(digits_value(s.subrange(i, d)) as i64), d))
        } else {
            None
        },
    }
}

/// A connective where the name is one in upper case, else the name.
pub open spec fn name_token(name: Seq<char>) -> TokenView {
    if uppercase(name) == "AND"@ {
        TokenView::And
    } else if uppercase(name) == "OR"@ {
        TokenView::Or
    } else {
        TokenView::Name(name)
    }
}

/// The point in time that a text denotes: a date with a time of day, or the start of a date. A
/// text that denotes none stands for itself.
pub open spec fn date_token(text: Seq<char>) -> TokenView {
    match from_parts(chrono_parse_datetime(hyphenated(text), DATETIME_LAYOUT@)) {
        Some(at) => TokenView::Time(at),
        None => match chrono_parse_date(trimmed(hyphenated(text)), "%Y-%m-%d"@) {
            Some(day) => TokenView::Time(midnight_of(day)),
            None => TokenView::Str(text),
        },
    }
}

/// The operator that a character and the one behind it make, and where it ends. A character that
/// only counts when doubled, or before an equals sign, is a name by itself.
pub open spec fn operator_token(s: Seq<char>, i: int) -> Option<(TokenView, int)> {
    let c = s[i];
    let equals = i + 1 < s.len() && s[i + 1] == '=';
    if c == '(' {
        Some((TokenView::LParen, i + 1))
    } else if c == ')' {
        Some((TokenView::RParen, i + 1))
    } else if c == '+' {
        Some((TokenView::Plus, i + 1))
    } else if c == '-' {
        Some((TokenView::Minus, i + 1))
    } else if c == '*' {
        Some((TokenView::Star, i + 1))
    } else if c == '/' {
        Some((TokenView::Slash, i + 1))
    } else if c == '=' && equals {
        Some((TokenView::Compare(CompareOp::Eq), i + 2))
    } else if c == '!' && equals {
        Some((TokenView::Compare(CompareOp::Ne), i + 2))
    } else if c == '>' {
        if equals {
            Some((TokenView::Compare(CompareOp::Ge), i + 2))
        } else {
            Some((TokenView::Compare(CompareOp::Gt), i + 1))
        }
    } else if c == '<' {
        if equals {
            Some((TokenView::Compare(CompareOp::Le), i + 2))
        } else {
            Some((TokenView::Compare(CompareOp::Lt), i + 1))
        }
    } else if c == '&' && i + 1 < s.len() && s[i + 1] == '&' {
        Some((TokenView::And, i + 2))
    } else if c == '|' && i + 1 < s.len() && s[i + 1] == '|' {
        Some((TokenView::Or, i + 2))
    } else if c == '=' || c == '!' || c == '&' || c == '|' {
        Some((TokenView::Name(seq![c]), i + 1))
    } else {
        None
    }
}

/// The token that starts at `i`, and where it ends. `None` where it is a number beyond 64 bits.
pub open spec fn token_at(s: Seq<char>, i: int) -> Option<(TokenView, int)> {
    let c = s[i];
    if c == '\'' || c == '"' {
        let (text, end) = quoted(s, i + 1, c);
        Some((TokenView::Str(text), end))
    } else if c == 'r' && i + 1 < s.len() && s[i + 1] == '\'' {
        let (text, end) = quoted(s, i + 2, '\'');
        Some((pattern_token(text), end))
    } else if operator_token(s, i) is Some {
        operator_token(s, i)
    } else if is_digit(c) {
        if date_starts(s, i) {
            let e = date_end(s, i + 1);
            Some((date_token(s.subrange(i, e)), e))
        } else {
            number_token(s, i)
        }
    } else if alphabetic(c) || c == '_' {
        let e = name_end(s, i + 1);
        Some((name_token(s.subrange(i, e)), e))
    } else {
        Some((TokenView::Name(seq![c]), i + 1))
    }
}

proof fn lemma_blanks_end(s: Seq<char>, i: int)
    requires
        0 <= i <= s.len(),
    ensures
        i <= blanks_end(s, i) <= s.len(),
    decreases s.len() - i,
{
    if i < s.len() && is_blank(s[i]) {
        lemma_blanks_end(s, i + 1);
    }
}

proof fn lemma_quote_at(s: Seq<char>, i: int, quote: char)
    requires
        0 <= i <= s.len(),
    ensures
        i <= quote_at(s, i, quote) <= s.len(),
    decreases s.len() - i,
{
    if i < s.len() && s[i] != quote {
        lemma_quote_at(s, i + 1, quote);
    }
}

proof fn lemma_letters_end(s: Seq<char>, i: int)
    requires
        0 <= i <= s.len(),
    ensures
        i <= letters_end(s, i) <= s.len(),
    decreases s.len() - i,
{
    if i < s.len() && is_ascii_letter(s[i]) {
        lemma_letters_end(s, i + 1);
    }
}

proof fn lemma_name_end(s: Seq<char>, i: int)
    requires
        0 <= i <= s.len(),
    ensures
        i <= name_end(s, i) <= s.len(),
    decreases s.len() - i,
{
    if i < s.len() && (alphanumeric(s[i]) || s[i] == '_') {
        lemma_name_end(s, i + 1);
    }
}

proof fn lemma_date_end(s: Seq<char>, i: int)
    requires
        0 <= i <= s.len(),
    ensures
        i <= date_end(s, i) <= s.len(),
    decreases s.len() - i,
{
    if i < s.len() && in_date(s[i]) {
        lemma_date_end(s, i + 1);
    }
}

/// A token takes up at least one character, and none beyond the end of the text.
pub proof fn lemma_token_advances(s: Seq<char>, i: int)
    requires
        0 <= i < s.len(),
    ensures
        token_at(s, i) matches Some((_, end)) ==> i < end <= s.len(),
{
    lemma_quote_at(s, i + 1, s[i]);
    if i + 1 < s.len() {
        lemma_quote_at(s, i + 2, '\'');
    }
    lemma_digits_end(s, i + 1);
    lemma_letters_end(s, digits_end(s, i + 1));
    lemma_date_end(s, i + 1);
    lemma_name_end(s, i + 1);
}

/// The tokens from position `i` on. `None` where one of them is a number beyond 64 bits.
pub open spec fn tokens_from(s: Seq<char>, i: int) -> Option<Seq<TokenView>>
    decreases s.len() - i,
{
    let j = blanks_end(s, i);
    if !(0 <= i <= j < s.len()) {
        Some(Seq::empty())
    } else {
        match token_at(s, j) {
            Some((token, end)) => {
                proof {
                    lemma_token_advances(s, j);
                }
                match tokens_from(s, end) {
                    Some(rest) => Some(seq![token] + rest),
                    None => None,
                }
            },
            None => None,
        }
    }
}

/// The tokens of a text. `None` where one of them is a number beyond 64 bits.
pub open spec fn tokens_of(s: Seq<char>) -> Option<Seq<TokenView>> {
    tokens_from(s, 0)
}

// ── the lexer ────────────────────────────────────────────────────────────

/// A position in a text.
pub struct Lexer {
    chars: Vec<char>,
    pos: usize,
}

/// What the lexer finds next.
pub enum Lexed {
    /// The text has ended.
    End,
    /// A token.
    Found(Token),
    /// A number beyond 64 bits.
    TooLarge,
}

impl Lexer {
    /// The whole text.
    pub closed spec fn text(&self) -> Seq<char> {
        self.chars@
    }

    /// How many characters have been consumed.
    pub closed spec fn at(&self) -> int {
        self.pos as int
    }

    /// The position lies within the text.
    pub open spec fn well_formed(&self) -> bool {
        0 <= self.at() <= self.text().len()
    }

    /// A lexer at the start of `input`.
    pub fn new(input: &str) -> (r: Lexer)
        ensures
            r.well_formed(),
            r.text() == input@,
            r.at() == 0,
    {
        Lexer { chars: to_chars(input), pos: 0 }
    }

    /// Takes the next character.
    pub fn next_char(&mut self) -> (r: Option<char>)
        requires
            old(self).well_formed(),
        ensures
            final(self).well_formed(),
            final(self).text() == old(self).text(),
            if old(self).at() < old(self).text().len() {
                r == Some(old(self).text()[old(self).at()]) && final(self).at() == old(self).at() + 1
            } else {
                r is None && final(self).at() == old(self).at()
            },
    {
        if self.pos < self.chars.len() {
            let c = self.chars[self.pos];
            self.pos = self.pos + 1;
            Some(c)
        } else {
            None
        }
    }

    /// The next character, left in place.
    pub fn peek_char(&self) -> (r: Option<char>)
        requires
            self.well_formed(),
        ensures
            r == if self.at() < self.text().len() {
                Some(self.text()[self.at()])
            } else {
                None
            },
    {
        if self.pos < self.chars.len() {
            Some(self.chars[self.pos])
        } else {
            None
        }
    }

    /// Skips blanks.
    pub fn skip_ws(&mut self)
        requires
            old(self).well_formed(),
        ensures
            final(self).well_formed(),
            final(self).text() == old(self).text(),
            final(self).at() == blanks_end(old(self).text(), old(self).at()),
    {
        while self.pos < self.chars.len() && is_blank_char(self.chars[self.pos])
            invariant
                self.well_formed(),
                self.text() == old(self).text(),
                blanks_end(old(self).text(), old(self).at()) == blanks_end(self.text(), self.at()),
            decreases self.text().len() - self.at(),
        {
            self.pos = self.pos + 1;
        }
    }

    fn read_quoted(&mut self, quote: char) -> (r: String)
        requires
            old(self).well_formed(),
        ensures
            final(self).well_formed(),
            final(self).text() == old(self).text(),
            (r@, final(self).at()) == quoted(old(self).text(), old(self).at(), quote),
    {
        let from = self.pos;
        let mut to: usize = from;
        while to < self.chars.len() && self.chars[to] != quote
            invariant
                from <= to <= self.chars@.len(),
                self.chars@ == old(self).text(),
                quote_at(self.chars@, from as int, quote) == quote_at(self.chars@, to as int, quote),
            decreases self.chars.len() - to,
        {
            to = to + 1;
        }
        let r = from_chars(&self.chars, from, to);
        self.pos = if to < self.chars.len() { to + 1 } else { to };
        r
    }

    /// Reads a text up to `quote`.
    pub fn read_string(&mut self, quote: char) -> (r: Token)
        requires
            old(self).well_formed(),
        ensures
            final(self).well_formed(),
            final(self).text() == old(self).text(),
            r@ == TokenView::Str(quoted(old(self).text(), old(self).at(), quote).0),
            final(self).at() == quoted(old(self).text(), old(self).at(), quote).1,
    {
        Token::Str(self.read_quoted(quote))
    }

    /// Reads a regular expression up to the closing quote.
    pub fn read_re_string(&mut self) -> (r: Token)
        requires
            old(self).well_formed(),
        ensures
            final(self).well_formed(),
            final(self).text() == old(self).text(),
            r@ == pattern_token(quoted(old(self).text(), old(self).at(), '\'').0),
            final(self).at() == quoted(old(self).text(), old(self).at(), '\'').1,
    {
        let source = self.read_quoted('\'');
        match Pattern::new(source.as_str()) {
            Some(p) => Token::ReStr(p),
            None => Token::Str(source),
        }
    }

    /// Reads the number that starts with the digit before the position; `None` where it is beyond
    /// 64 bits.
    pub fn read_number(&mut self) -> (r: Option<Token>)
        requires
            old(self).well_formed(),
            old(self).at() > 0,
            is_digit(old(self).text()[old(self).at() - 1]),
        ensures
            final(self).well_formed(),
            final(self).text() == old(self).text(),
            match number_token(old(self).text(), old(self).at() - 1) {
                Some((token, end)) => r is Some && r->0@ == token && final(self).at() == end,
                None => r is None && final(self).at() == old(self).at(),
            },
    {
        let first: usize = self.pos - 1;
        let ghost s = self.chars@;
        let d = skip_digits(&self.chars, self.pos);
        let mut l: usize = d;
        while l < self.chars.len() && is_ascii_letter_char(self.chars[l])
            invariant
                d <= l <= self.chars@.len(),
                self.chars@ == s,
                letters_end(s, d as int) == letters_end(s, l as int),
            decreases self.chars.len() - l,
        {
            l = l + 1;
        }
        let candidate = from_chars(&self.chars, first, l);
        match try_parse_byte_str(candidate.as_str()) {
            None => None,
            Some(Some(n)) => {
                self.pos = l;
                Some(Token::Num(to_signed(n)))
            },
            Some(None) => {
                proof {
                    lemma_digits_end(s, first as int);
                    assert(digits_end(s, first as int) == d);
                }
                match digits_to_u64(&self.chars, first, d) {
                    Some(n) => {
                        if n > i64::MAX as u64 {
                            return None;
                        }
                        self.pos = d;
                        Some(Token::Num(n as i64))
                    },
                    None => None,
                }
            },
        }
    }

    /// Reads the name that starts with the character before the position.
    pub fn read_name(&mut self) -> (r: Token)
        requires
            old(self).well_formed(),
            old(self).at() > 0,
        ensures
            final(self).well_formed(),
            final(self).text() == old(self).text(),
            final(self).at() == name_end(old(self).text(), old(self).at()),
            r@ == name_token(old(self).text().subrange(old(self).at() - 1, final(self).at())),
    {
        let first: usize = self.pos - 1;
        let mut e: usize = self.pos;
        while e < self.chars.len() && (is_alphanumeric(self.chars[e]) || self.chars[e] == '_')
            invariant
                first < e <= self.chars@.len(),
                self.chars@ == old(self).text(),
                name_end(self.chars@, first + 1) == name_end(self.chars@, e as int),
            decreases self.chars.len() - e,
        {
            e = e + 1;
        }
        let name = from_chars(&self.chars, first, e);
        self.pos = e;
        let upper = to_uppercase(name.as_str());
        if same_text(upper.as_str(), "AND") {
            Token::And
        } else if same_text(upper.as_str(), "OR") {
            Token::Or
        } else {
            Token::Name(name)
        }
    }

    /// Reads the date that starts with the digit before the position, with a time of day or
    /// without.
    pub fn read_datetime(&mut self) -> (r: Token)
        requires
            old(self).well_formed(),
            old(self).at() > 0,
        ensures
            final(self).well_formed(),
            final(self).text() == old(self).text(),
            final(self).at() == date_end(old(self).text(), old(self).at()),
            r@ == date_token(old(self).text().subrange(old(self).at() - 1, final(self).at())),
    {
        let first: usize = self.pos - 1;
        let mut e: usize = self.pos;
        while e < self.chars.len() && is_date_char(self.chars[e])
            invariant
                first < e <= self.chars@.len(),
                self.chars@ == old(self).text(),
                date_end(self.chars@, first + 1) == date_end(self.chars@, e as int),
            decreases self.chars.len() - e,
        {
            e = e + 1;
        }
        let text = from_chars(&self.chars, first, e);
        self.pos = e;
        date_of(text)
    }

    /// The next token. At the end of the text the position stays there; behind a number beyond 64
    /// bits it stands behind the first digit.
    pub fn next(&mut self) -> (r: Lexed)
        requires
            old(self).well_formed(),
        ensures
            final(self).well_formed(),
            final(self).text() == old(self).text(),
            ({
                let j = blanks_end(old(self).text(), old(self).at());
                if j >= old(self).text().len() {
                    r is End && final(self).at() == old(self).text().len()
                } else {
                    match token_at(old(self).text(), j) {
                        Some((token, end)) => r is Found && r->Found_0@ == token
                            && final(self).at() == end,
                        None => r is TooLarge && final(self).at() == j + 1,
                    }
                }
            }),
    {
        proof {
            lemma_blanks_end(self.text(), self.at());
        }
        self.skip_ws();
        let ghost s = self.text();
        let ghost j = self.at();
        let c = match self.next_char() {
            Some(c) => c,
            None => return Lexed::End,
        };
        if c == '\'' || c == '"' {
            return Lexed::Found(self.read_string(c));
        }
        let behind = self.peek_char();
        if c == 'r' && behind == Some('\'') {
            let _ = self.next_char();
            return Lexed::Found(self.read_re_string());
        }
        let equals = behind == Some('=');
        if c == '(' {
            return Lexed::Found(Token::LParen);
        }
        if c == ')' {
            return Lexed::Found(Token::RParen);
        }
        if c == '+' {
            return Lexed::Found(Token::Plus);
        }
        if c == '-' {
            return Lexed::Found(Token::Minus);
        }
        if c == '*' {
            return Lexed::Found(Token::Star);
        }
        if c == '/' {
            return Lexed::Found(Token::Slash);
        }
        if equals && (c == '=' || c == '!' || c == '>' || c == '<') {
            let _ = self.next_char();
            let op = if c == '=' {
                CompareOp::Eq
            } else if c == '!' {
                CompareOp::Ne
            } else if c == '>' {
                CompareOp::Ge
            } else {
                CompareOp::Le
            };
            return Lexed::Found(Token::Compare(op));
        }
        if c == '>' {
            return Lexed::Found(Token::Compare(CompareOp::Gt));
        }
        if c == '<' {
            return Lexed::Found(Token::Compare(CompareOp::Lt));
        }
        if c == '&' && behind == Some('&') {
            let _ = self.next_char();
            return Lexed::Found(Token::And);
        }
        if c == '|' && behind == Some('|') {
            let _ = self.next_char();
            return Lexed::Found(Token::Or);
        }
        if c == '=' || c == '!' || c == '&' || c == '|' {
            return Lexed::Found(single_name(c));
        }
        assert(operator_token(s, j) is None);
        if is_digit_char(c) {
            if is_date_at(&self.chars, self.pos - 1) {
                return Lexed::Found(self.read_datetime());
            }
            return match self.read_number() {
                Some(t) => Lexed::Found(t),
                None => Lexed::TooLarge,
            };
        }
        if is_alphabetic(c) || c == '_' {
            return Lexed::Found(self.read_name());
        }
        Lexed::Found(single_name(c))
    }
}

fn single_name(c: char) -> (t: Token)
    ensures
        t@ == TokenView::Name(seq![c]),
{
    let mut name = String::new();
    name.push(c);
    assert(name@ =~= seq![c]);
    Token::Name(name)
}

fn is_blank_char(c: char) -> (r: bool)
    ensures
        r == is_blank(c),
{
    c == ' ' || c == '\t' || c == '\n' || c == '\x0C' || c == '\r'
}

fn is_ascii_letter_char(c: char) -> (r: bool)
    ensures
        r == is_ascii_letter(c),
{
    ('a' <= c && c <= 'z') || ('A' <= c && c <= 'Z')
}

fn is_date_char(c: char) -> (r: bool)
    ensures
        r == in_date(c),
{
    is_digit_char(c) || c == '-' || c == '.' || c == '/' || c == ' ' || c == ':'
}

fn is_date_at(v: &Vec<char>, i: usize) -> (r: bool)
    requires
        i < v@.len(),
    ensures
        r == date_starts(v@, i as int),
{
    if v.len() - i < 8 {
        return false;
    }
    if !(has_digit(v, i) && has_digit(v, i + 1) && has_digit(v, i + 2) && has_digit(v, i + 3)) {
        return false;
    }
    if !(has_mark(v, i + 4) && has_digit(v, i + 5)) {
        return false;
    }
    if has_mark(v, i + 6) && has_digit(v, i + 7) {
        return true;
    }
    if v.len() - i < 9 {
        return false;
    }
    has_digit(v, i + 6) && has_mark(v, i + 7) && has_digit(v, i + 8)
}

fn to_signed(n: u64) -> (r: i64)
    ensures
        r == as_signed(n as int),
{
    if n > i64::MAX as u64 {
        (n as i128 - 0x1_0000_0000_0000_0000) as i64
    } else {
        n as i64
    }
}

/// The token that the text of a date stands for.
pub fn date_of(text: String) -> (r: Token)
    ensures
        r@ == date_token(text@),
{
    let normalized = hyphenate(text.as_str());
    if let Some(at) = parse_datetime(normalized.as_str(), DATETIME_LAYOUT) {
        return Token::Time(at);
    }
    let bare = trim_text(normalized.as_str());
    match parse_date(bare.as_str(), "%Y-%m-%d") {
        Some(day) => Token::Time(midnight(day)),
        None => Token::Str(text),
    }
}

/// The tokens of a text; `None` where one of them is a number beyond 64 bits.
pub fn lex(input: &str) -> (r: Option<Vec<Token>>)
    ensures
        match tokens_of(input@) {
            Some(tokens) => r is Some && token_views(r->0@) == tokens,
            None => r is None,
        },
{
    let mut lexer = Lexer::new(input);
    let mut tokens: Vec<Token> = Vec::new();
    assert(token_views(tokens@) =~= Seq::empty());
    assert(tokens_of(input@) matches Some(all) ==> all =~= token_views(tokens@) + all);
    loop
        invariant
            lexer.well_formed(),
            lexer.text() == input@,
            match tokens_from(input@, lexer.at()) {
                Some(rest) => tokens_of(input@) == Some(token_views(tokens@) + rest),
                None => tokens_of(input@) is None,
            },
        decreases input@.len() - lexer.at(),
    {
        let ghost i = lexer.at();
        let ghost j = blanks_end(input@, i);
        proof {
            lemma_blanks_end(input@, i);
        }
        match lexer.next() {
            Lexed::End => {
                assert(token_views(tokens@) + Seq::empty() =~= token_views(tokens@));
                return Some(tokens);
            },
            Lexed::TooLarge => {
                return None;
            },
            Lexed::Found(token) => {
                let ghost before = token_views(tokens@);
                proof {
                    lemma_token_advances(input@, j);
                }
                tokens.push(token);
                assert(token_views(tokens@) =~= before.push(token@));
                assert forall|rest: Seq<TokenView>|
                    before + (seq![token@] + rest) == #[trigger] (before.push(token@) + rest) by {
                    assert(before + (seq![token@] + rest) =~= before.push(token@) + rest);
                }
            },
        }
    }
}

} // verus!
