use vstd::prelude::*;

use crate::number::{make, Number, NUM_MAX};
use crate::token::{token_views, Position, Token, TokenType, TokenView};
use crate::value::{LoxValue, Val};

verus! {

/// Turns source text into tokens. Characters that start no token are
/// skipped; the last token is always the end-of-file token.
pub struct Scanner {
    text: String,
    source: Vec<char>,
    start: usize,
    current: usize,
    line: usize,
    column: usize,
}

pub open spec fn is_digit(c: char) -> bool {
    '0' <= c <= '9'
}

pub open spec fn is_ident_char(c: char) -> bool {
    ('a' <= c <= 'z') || ('A' <= c <= 'Z') || is_digit(c) || c == '_'
}

/// Letters, digits and `_` make up identifiers.
pub fn is_valid_ident_char(c: char) -> (r: bool)
    ensures
        r == is_ident_char(c),
{
    ('a' <= c && c <= 'z') || ('A' <= c && c <= 'Z') || ('0' <= c && c <= '9') || c == '_'
}

fn digit_value(c: char) -> (r: u64)
    requires
        is_digit(c),
    ensures
        r < 10,
        r as int == digit_of(c),
{
    (c as u32 - '0' as u32) as u64
}

/// Where the scanner stands: the index of the next character, and the line
/// and column it counts.
pub ghost struct ScanState {
    pub i: nat,
    pub line: usize,
    pub column: usize,
}

/// One character consumed: the column counts on, up to `usize::MAX`.
pub open spec fn step(st: ScanState) -> ScanState {
    ScanState {
        i: st.i + 1,
        line: st.line,
        column: if st.column < usize::MAX { (st.column + 1) as usize } else { st.column },
    }
}

/// A new line inside a comment or a string.
pub open spec fn soft_newline(st: ScanState) -> ScanState {
    if st.line < usize::MAX {
        ScanState { line: (st.line + 1) as usize, column: 1, ..st }
    } else {
        st
    }
}

pub open spec fn peek_at(cs: Seq<char>, i: nat) -> char {
    if i < cs.len() {
        cs[i as int]
    } else {
        '\0'
    }
}

pub open spec fn token_at(tt: TokenType, literal: Option<Val>, st: ScanState) -> TokenView {
    TokenView { token_type: tt, literal, position: Position { line: st.line, column: st.column } }
}

pub open spec fn digit_of(c: char) -> int {
    (c as u32) as int - ('0' as u32) as int
}

/// A line comment runs to the end of the line (the newline stays).
pub open spec fn line_comment(cs: Seq<char>, st: ScanState) -> ScanState
    decreases cs.len() - st.i,
{
    if st.i < cs.len() && cs[st.i as int] != '\n' {
        line_comment(cs, step(st))
    } else {
        st
    }
}

/// A block comment runs past the next `*/`, or to the end.
pub open spec fn block_comment(cs: Seq<char>, st: ScanState) -> ScanState
    decreases cs.len() - st.i,
{
    if st.i >= cs.len() {
        st
    } else if cs[st.i as int] == '*' && peek_at(cs, st.i + 1) == '/' {
        step(step(st))
    } else {
        let s1 = step(st);
        block_comment(cs, if cs[st.i as int] == '\n' { soft_newline(s1) } else { s1 })
    }
}

/// The text of a string runs to the closing quote, or to the end.
pub open spec fn string_body(cs: Seq<char>, st: ScanState) -> ScanState
    decreases cs.len() - st.i,
{
    if st.i < cs.len() && cs[st.i as int] != '"' {
        let s1 = step(st);
        string_body(cs, if cs[st.i as int] == '\n' { soft_newline(s1) } else { s1 })
    } else {
        st
    }
}

/// The digits before the point: the value so far, and whether it still fits.
pub open spec fn int_digits(cs: Seq<char>, st: ScanState, num: int, fits: bool) -> (ScanState, int, bool)
    decreases cs.len() - st.i,
{
    if st.i < cs.len() && is_digit(cs[st.i as int]) {
        let d = digit_of(cs[st.i as int]);
        if fits && num <= (NUM_MAX - d) / 10 {
            int_digits(cs, step(st), num * 10 + d, fits)
        } else {
            int_digits(cs, step(st), num, false)
        }
    } else {
        (st, num, fits)
    }
}

/// The digits after the point: numerator and denominator so far, and
/// whether they still fit.
pub open spec fn frac_part(cs: Seq<char>, st: ScanState, num: int, den: int, fits: bool) -> (ScanState, int, int, bool)
    decreases cs.len() - st.i,
{
    if st.i < cs.len() && is_digit(cs[st.i as int]) {
        let d = digit_of(cs[st.i as int]);
        if fits && num <= (NUM_MAX - d) / 10 && den <= NUM_MAX / 10 {
            frac_part(cs, step(st), num * 10 + d, den * 10, fits)
        } else {
            frac_part(cs, step(st), num, den, false)
        }
    } else {
        (st, num, den, fits)
    }
}

/// The value of a number literal `num / den`; none where it does not fit.
pub open spec fn number_literal(num: int, den: int, fits: bool) -> Option<Val> {
    if fits {
        match make(num, den) {
            Some(p) => Some(Val::Number(Number::from_pair(p))),
            None => None,
        }
    } else {
        None
    }
}

/// A number whose first digit is at `st0.i`, with `s1` just after it.
pub open spec fn scan_number_spec(cs: Seq<char>, st0: ScanState, s1: ScanState) -> (TokenView, ScanState) {
    let (a, num, fits) = int_digits(cs, s1, digit_of(cs[st0.i as int]), true);
    let (b, num2, den2, fits2) = if peek_at(cs, a.i) == '.' && is_digit(peek_at(cs, a.i + 1)) {
        frac_part(cs, step(a), num, 1, fits)
    } else {
        (a, num, 1int, fits)
    };
    (token_at(TokenType::Number, number_literal(num2, den2, fits2), b), b)
}

pub open spec fn ident_end(cs: Seq<char>, st: ScanState) -> ScanState
    decreases cs.len() - st.i,
{
    if st.i < cs.len() && is_ident_char(cs[st.i as int]) {
        ident_end(cs, step(st))
    } else {
        st
    }
}

/// The keyword that a word spells.
pub open spec fn keyword_of(w: Seq<char>) -> Option<TokenType> {
    if w == seq!['a', 'n', 'd'] {
        Some(TokenType::And)
    } else if w == seq!['o', 'r'] {
        Some(TokenType::Or)
    } else if w == seq!['t', 'r', 'u', 'e'] {
        Some(TokenType::True)
    } else if w == seq!['f', 'a', 'l', 's', 'e'] {
        Some(TokenType::False)
    } else if w == seq!['n', 'i', 'l'] {
        Some(TokenType::Nil)
    } else if w == seq!['i', 'f'] {
        Some(TokenType::If)
    } else if w == seq!['e', 'l', 's', 'e'] {
        Some(TokenType::Else)
    } else if w == seq!['w', 'h', 'i', 'l', 'e'] {
        Some(TokenType::While)
    } else if w == seq!['f', 'o', 'r'] {
        Some(TokenType::For)
    } else if w == seq!['f', 'u', 'n'] {
        Some(TokenType::Fun)
    } else if w == seq!['c', 'l', 'a', 's', 's'] {
        Some(TokenType::Class)
    } else if w == seq!['r', 'e', 't', 'u', 'r', 'n'] {
        Some(TokenType::Return)
    } else if w == seq!['p', 'r', 'i', 'n', 't'] {
        Some(TokenType::Print)
    } else if w == seq!['s', 'u', 'p', 'e', 'r'] {
        Some(TokenType::Super)
    } else if w == seq!['t', 'h', 'i', 's'] {
        Some(TokenType::This)
    } else if w == seq!['v', 'a', 'r'] {
        Some(TokenType::Var)
    } else if w == seq!['b', 'r', 'e', 'a', 'k'] {
        Some(TokenType::Break)
    } else if w == seq!['c', 'o', 'n', 't', 'i', 'n', 'u', 'e'] {
        Some(TokenType::Continue)
    } else {
        None
    }
}

/// A word starting at `st0.i`, with `s1` just after its first character: a
/// keyword, or an identifier carrying its name.
pub open spec fn scan_word_spec(cs: Seq<char>, st0: ScanState, s1: ScanState) -> (TokenView, ScanState) {
    let e = ident_end(cs, s1);
    let w = cs.subrange(st0.i as int, e.i as int);
    let t = match keyword_of(w) {
        Some(TokenType::True) => token_at(TokenType::True, Some(Val::Boolean(true)), e),
        Some(TokenType::False) => token_at(TokenType::False, Some(Val::Boolean(false)), e),
        Some(k) => token_at(k, None, e),
        None => token_at(TokenType::Identifier, Some(Val::Str(w)), e),
    };
    (t, e)
}

/// After `/` (with `s1` just past it): a comment, or a slash.
pub open spec fn scan_slash_spec(cs: Seq<char>, s1: ScanState) -> (Option<TokenView>, ScanState) {
    if peek_at(cs, s1.i) == '/' {
        (None, line_comment(cs, step(s1)))
    } else if peek_at(cs, s1.i) == '*' {
        (None, block_comment(cs, step(s1)))
    } else {
        (Some(token_at(TokenType::Slash, None, s1)), s1)
    }
}

/// After `"` (with `s1` just past it): a string token.
pub open spec fn scan_string_spec(cs: Seq<char>, s1: ScanState) -> (TokenView, ScanState) {
    let s2 = string_body(cs, s1);
    let s3 = if s2.i < cs.len() { step(s2) } else { s2 };
    (token_at(TokenType::String, Some(Val::Str(cs.subrange(s1.i as int, s2.i as int))), s3), s3)
}

/// An operator of one character, or of two where `=` follows.
pub open spec fn with_equal(cs: Seq<char>, s1: ScanState, one: TokenType, two: TokenType) -> (Option<TokenView>, ScanState) {
    if peek_at(cs, s1.i) == '=' {
        (Some(token_at(two, None, step(s1))), step(s1))
    } else {
        (Some(token_at(one, None, s1)), s1)
    }
}

pub open spec fn single(c: char) -> Option<TokenType> {
    if c == '(' {
        Some(TokenType::LeftParen)
    } else if c == ')' {
        Some(TokenType::RightParen)
    } else if c == '{' {
        Some(TokenType::LeftBrace)
    } else if c == '}' {
        Some(TokenType::RightBrace)
    } else if c == ',' {
        Some(TokenType::Comma)
    } else if c == '.' {
        Some(TokenType::Dot)
    } else if c == '?' {
        Some(TokenType::QuestionMark)
    } else if c == '-' {
        Some(TokenType::Minus)
    } else if c == '+' {
        Some(TokenType::Plus)
    } else if c == '*' {
        Some(TokenType::Star)
    } else if c == ';' {
        Some(TokenType::Semicolon)
    } else if c == ':' {
        Some(TokenType::Colon)
    } else {
        None
    }
}

/// The token (if any) that starts at `st.i`, and where scanning goes on.
pub open spec fn scan_token_spec(cs: Seq<char>, st: ScanState) -> (Option<TokenView>, ScanState) {
    let c = cs[st.i as int];
    let s1 = step(st);
    if single(c) is Some {
        (Some(token_at(single(c).unwrap(), None, s1)), s1)
    } else if c == '!' {
        with_equal(cs, s1, TokenType::Bang, TokenType::BangEqual)
    } else if c == '=' {
        with_equal(cs, s1, TokenType::Equal, TokenType::EqualEqual)
    } else if c == '<' {
        with_equal(cs, s1, TokenType::Less, TokenType::LessEqual)
    } else if c == '>' {
        with_equal(cs, s1, TokenType::Greater, TokenType::GreaterEqual)
    } else if c == '/' {
        scan_slash_spec(cs, s1)
    } else if c == '"' {
        let (t, s2) = scan_string_spec(cs, s1);
        (Some(t), s2)
    } else if is_digit(c) {
        let (t, s2) = scan_number_spec(cs, st, s1);
        (Some(t), s2)
    } else if is_ident_char(c) {
        let (t, s2) = scan_word_spec(cs, st, s1);
        (Some(t), s2)
    } else if c == '\n' {
        (None, ScanState { line: if s1.line < usize::MAX { (s1.line + 1) as usize } else { s1.line }, column: 1, ..s1 })
    } else {
        (None, s1)
    }
}

/// The tokens from `st` on, after `acc`; the last is the end of file.
pub open spec fn scan_from(cs: Seq<char>, st: ScanState, acc: Seq<TokenView>) -> Seq<TokenView>
    decreases cs.len() - st.i,
{
    if st.i >= cs.len() {
        acc.push(token_at(TokenType::Eof, None, st))
    } else {
        let (t, s2) = scan_token_spec(cs, st);
        if st.i < s2.i && s2.i <= cs.len() {
            let acc2 = match t {
                Some(tk) => if tk.token_type != TokenType::Eof {
                    acc.push(tk)
                } else {
                    acc
                },
                None => acc,
            };
            scan_from(cs, s2, acc2)
        } else {
            acc
        }
    }
}

/// The tokens of a text, from line 1, column 1.
pub open spec fn scan(cs: Seq<char>) -> Seq<TokenView> {
    scan_from(cs, ScanState { i: 0, line: 1, column: 1 }, Seq::empty())
}

pub open spec fn opt_view(t: Option<Token>) -> Option<TokenView> {
    match t {
        Some(tk) => Some(tk@),
        None => None,
    }
}

impl Scanner {
    pub closed spec fn wf(&self) -> bool {
        &&& self.source@ == self.text@
        &&& self.start <= self.current <= self.source@.len()
    }

    pub closed spec fn state(&self) -> ScanState {
        ScanState { i: self.current as nat, line: self.line, column: self.column }
    }

    pub closed spec fn chars(&self) -> Seq<char> {
        self.source@
    }

    pub fn new(source: &str) -> (r: Scanner)
        ensures
            r.wf(),
            r.chars() == source@,
            r.state() == (ScanState { i: 0, line: 1, column: 1 }),
    {
        let n = source.unicode_len();
        let mut chars: Vec<char> = Vec::new();
        let mut i: usize = 0;
        while i < n
            invariant
                i <= n,
                n == source@.len(),
                chars@ == source@.subrange(0, i as int),
            decreases n - i,
        {
            chars.push(source.get_char(i));
            i = i + 1;
            assert(chars@ =~= source@.subrange(0, i as int));
        }
        assert(chars@ =~= source@);
        Scanner {
            text: String::from_str(source),
            source: chars,
            start: 0,
            current: 0,
            line: 1,
            column: 1,
        }
    }

    fn is_at_end(&self) -> (r: bool)
        requires
            self.wf(),
        ensures
            r == (self.current >= self.source@.len()),
    {
        self.current >= self.source.len()
    }

    fn advance(&mut self) -> (c: char)
        requires
            old(self).wf(),
            old(self).current < old(self).source@.len(),
        ensures
            final(self).wf(),
            final(self).state() == step(old(self).state()),
            final(self).start == old(self).start,
            final(self).source@ == old(self).source@,
            c == old(self).source@[old(self).current as int],
    {
        let n = self.source.len();
        let c = self.source[self.current];
        assert(self.current < n);
        self.current = self.current + 1;
        if self.column < usize::MAX {
            self.column = self.column + 1;
        }
        c
    }

    /// The next character, or `'\0'` at the end.
    fn peek(&self) -> (c: char)
        requires
            self.wf(),
        ensures
            c == peek_at(self.source@, self.current as nat),
    {
        if self.current < self.source.len() {
            self.source[self.current]
        } else {
            '\0'
        }
    }

    /// The character after the next, or `'\0'`.
    fn peek_twice(&self) -> (c: char)
        requires
            self.wf(),
        ensures
            c == peek_at(self.source@, self.current as nat + 1),
    {
        if self.source.len() - self.current > 1 {
            self.source[self.current + 1]
        } else {
            '\0'
        }
    }

    fn matches_next(&mut self, expected: char) -> (r: bool)
        requires
            old(self).wf(),
            expected != '\0',
        ensures
            final(self).wf(),
            final(self).source@ == old(self).source@,
            final(self).start == old(self).start,
            r == (peek_at(old(self).source@, old(self).current as nat) == expected),
            final(self).state() == if r { step(old(self).state()) } else { old(self).state() },
    {
        if self.is_at_end() || self.peek() != expected {
            return false;
        }
        self.advance();
        true
    }

    fn position(&self) -> (r: Position)
        ensures
            r == (Position { line: self.line, column: self.column }),
    {
        Position::new(self.line, self.column)
    }

    /// A token of type `token_type` at the current position.
    fn make_token(&self, token_type: TokenType, literal: Option<LoxValue>) -> (r: Token)
        ensures
            r@ == token_at(token_type, match literal {
                Some(v) => Some(v@),
                None => None,
            }, self.state()),
    {
        Token::new(token_type, literal, self.position())
    }

    /// The text from `from` up to `to`.
    fn get_string(&self, from: usize, to: usize) -> (r: String)
        requires
            self.wf(),
            from <= to <= self.source@.len(),
        ensures
            r@ == self.source@.subrange(from as int, to as int),
    {
        String::from_str(self.text.as_str().substring_char(from, to))
    }

    /// After `/`: a line comment, a block comment, or a slash.
    fn scan_comment(&mut self) -> (r: Option<Token>)
        requires
            old(self).wf(),
        ensures
            final(self).current >= old(self).current,
            final(self).wf(),
            final(self).source@ == old(self).source@,
            final(self).start == old(self).start,
            (opt_view(r), final(self).state()) == scan_slash_spec(old(self).source@, old(self).state()),
    {
        if self.matches_next('/') {
            while !self.is_at_end() && self.peek() != '\n'
                invariant
                    self.wf(),
                    self.current >= old(self).current,
                    self.source@ == old(self).source@,
                    self.start == old(self).start,
                    line_comment(self.source@, step(old(self).state())) == line_comment(self.source@, self.state()),
                decreases self.source@.len() - self.current,
            {
                self.advance();
            }
            None
        } else if self.matches_next('*') {
            loop
                invariant
                    self.wf(),
                    self.current >= old(self).current,
                    self.source@ == old(self).source@,
                    self.start == old(self).start,
                    block_comment(self.source@, step(old(self).state())) == block_comment(self.source@, self.state()),
                    peek_at(old(self).source@, old(self).current as nat) == '*',
                decreases self.source@.len() - self.current,
            {
                if self.is_at_end() {
                    return None;
                }
                if self.peek() == '*' && self.peek_twice() == '/' {
                    self.advance();
                    self.advance();
                    return None;
                }
                let c = self.advance();
                if c == '\n' && self.line < usize::MAX {
                    self.line = self.line + 1;
                    self.column = 1;
                }
            }
        } else {
            Some(self.make_token(TokenType::Slash, None))
        }
    }

    /// After `"`: the text up to the closing quote (or the end).
    fn scan_string(&mut self) -> (r: Token)
        requires
            old(self).wf(),
        ensures
            final(self).current >= old(self).current,
            final(self).wf(),
            final(self).source@ == old(self).source@,
            final(self).start == old(self).start,
            (r@, final(self).state()) == scan_string_spec(old(self).source@, old(self).state()),
    {
        let from = self.current;
        while !self.is_at_end() && self.peek() != '"'
            invariant
                self.wf(),
                self.current >= old(self).current,
                self.source@ == old(self).source@,
                self.start == old(self).start,
                from <= self.current,
                from == old(self).current,
                string_body(self.source@, old(self).state()) == string_body(self.source@, self.state()),
            decreases self.source@.len() - self.current,
        {
            let c = self.advance();
            if c == '\n' && self.line < usize::MAX {
                self.line = self.line + 1;
                self.column = 1;
            }
        }
        let s = self.get_string(from, self.current);
        if !self.is_at_end() {
            self.advance();
        }
        self.make_token(TokenType::String, Some(LoxValue::String(s)))
    }

    /// After the first digit: digits, and optionally `.` and more digits.
    /// A number whose digits do not fit carries no literal.
    fn scan_number(&mut self) -> (r: Token)
        requires
            old(self).wf(),
            old(self).start + 1 == old(self).current,
            is_digit(old(self).source@[old(self).start as int]),
        ensures
            final(self).current >= old(self).current,
            final(self).wf(),
            final(self).source@ == old(self).source@,
            final(self).start == old(self).start,
            forall|st0: ScanState| st0.i == old(self).start ==>
                (#[trigger] scan_number_spec(old(self).source@, st0, old(self).state())) == (r@, final(self).state()),
    {
        let ghost cs = self.source@;
        let ghost s1 = self.state();
        let mut num: i128 = digit_value(self.source[self.start]) as i128;
        let mut den: i128 = 1;
        let mut fits = true;
        let ghost first = int_digits(cs, s1, num as int, true);
        while !self.is_at_end() && '0' <= self.peek() && self.peek() <= '9'
            invariant
                self.wf(),
                self.current >= old(self).current,
                self.source@ == cs,
                self.start == old(self).start,
                0 <= num <= NUM_MAX,
                den == 1,
                first == int_digits(cs, self.state(), num as int, fits),
            decreases self.source@.len() - self.current,
        {
            let c = self.advance();
            let d = digit_value(c) as i128;
            if fits && num <= (NUM_MAX as i128 - d) / 10 {
                num = num * 10 + d;
            } else {
                fits = false;
            }
        }
        let ghost a = self.state();
        let ghost second = if peek_at(cs, a.i) == '.' && is_digit(peek_at(cs, a.i + 1)) {
            frac_part(cs, step(a), num as int, 1, fits)
        } else {
            (a, num as int, 1int, fits)
        };
        if self.peek() == '.' && '0' <= self.peek_twice() && self.peek_twice() <= '9' {
            self.advance();
            while !self.is_at_end() && '0' <= self.peek() && self.peek() <= '9'
                invariant
                    self.wf(),
                    self.current >= old(self).current,
                    self.source@ == cs,
                    self.start == old(self).start,
                    0 <= num <= NUM_MAX,
                    1 <= den <= NUM_MAX,
                    second == frac_part(cs, self.state(), num as int, den as int, fits),
                decreases self.source@.len() - self.current,
            {
                let c = self.advance();
                let d = digit_value(c) as i128;
                if fits && num <= (NUM_MAX as i128 - d) / 10 && den <= NUM_MAX as i128 / 10 {
                    num = num * 10 + d;
                    den = den * 10;
                } else {
                    fits = false;
                }
            }
        }
        let literal = if fits {
            match Number::normalize(num, den) {
                Some(n) => Some(LoxValue::Number(n)),
                None => None,
            }
        } else {
            None
        };
        self.make_token(TokenType::Number, literal)
    }

    fn word_is(&self, w: &[char]) -> (r: bool)
        requires
            self.wf(),
        ensures
            r == (self.source@.subrange(self.start as int, self.current as int) == w@),
    {
        if self.current - self.start != w.len() {
            return false;
        }
        let mut i: usize = 0;
        while i < w.len()
            invariant
                self.wf(),
                self.current - self.start == w@.len(),
                i <= w@.len(),
                forall|k: int| 0 <= k < i ==> self.source@[self.start + k] == w@[k],
            decreases w@.len() - i,
        {
            if self.source[self.start + i] != w[i] {
                return false;
            }
            i = i + 1;
        }
        assert(self.source@.subrange(self.start as int, self.current as int) =~= w@);
        true
    }

    /// The keyword that the current word spells, if any.
    fn keyword(&self) -> (r: Option<TokenType>)
        requires
            self.wf(),
        ensures
            r == keyword_of(self.source@.subrange(self.start as int, self.current as int)),
    {
        let ghost w = self.source@.subrange(self.start as int, self.current as int);
        if self.word_is(&['a', 'n', 'd']) {
            assert(w == seq!['a', 'n', 'd']);
            Some(TokenType::And)
        } else if self.word_is(&['o', 'r']) {
            Some(TokenType::Or)
        } else if self.word_is(&['t', 'r', 'u', 'e']) {
            Some(TokenType::True)
        } else if self.word_is(&['f', 'a', 'l', 's', 'e']) {
            Some(TokenType::False)
        } else if self.word_is(&['n', 'i', 'l']) {
            Some(TokenType::Nil)
        } else if self.word_is(&['i', 'f']) {
            Some(TokenType::If)
        } else if self.word_is(&['e', 'l', 's', 'e']) {
            Some(TokenType::Else)
        } else if self.word_is(&['w', 'h', 'i', 'l', 'e']) {
            Some(TokenType::While)
        } else if self.word_is(&['f', 'o', 'r']) {
            Some(TokenType::For)
        } else if self.word_is(&['f', 'u', 'n']) {
            Some(TokenType::Fun)
        } else if self.word_is(&['c', 'l', 'a', 's', 's']) {
            Some(TokenType::Class)
        } else if self.word_is(&['r', 'e', 't', 'u', 'r', 'n']) {
            Some(TokenType::Return)
        } else if self.word_is(&['p', 'r', 'i', 'n', 't']) {
            Some(TokenType::Print)
        } else if self.word_is(&['s', 'u', 'p', 'e', 'r']) {
            Some(TokenType::Super)
        } else if self.word_is(&['t', 'h', 'i', 's']) {
            Some(TokenType::This)
        } else if self.word_is(&['v', 'a', 'r']) {
            Some(TokenType::Var)
        } else if self.word_is(&['b', 'r', 'e', 'a', 'k']) {
            Some(TokenType::Break)
        } else if self.word_is(&['c', 'o', 'n', 't', 'i', 'n', 'u', 'e']) {
            Some(TokenType::Continue)
        } else {
            None
        }
    }

    /// After the first character of a word: a keyword, or an identifier
    /// whose literal is its name.
    fn scan_identifier(&mut self) -> (r: Token)
        requires
            old(self).wf(),
        ensures
            final(self).current >= old(self).current,
            final(self).wf(),
            final(self).source@ == old(self).source@,
            final(self).start == old(self).start,
            forall|st0: ScanState| st0.i == old(self).start ==>
                (#[trigger] scan_word_spec(old(self).source@, st0, old(self).state())) == (r@, final(self).state()),
    {
        while !self.is_at_end() && is_valid_ident_char(self.peek())
            invariant
                self.wf(),
                self.current >= old(self).current,
                self.source@ == old(self).source@,
                self.start == old(self).start,
                ident_end(self.source@, old(self).state()) == ident_end(self.source@, self.state()),
            decreases self.source@.len() - self.current,
        {
            self.advance();
        }
        match self.keyword() {
            Some(TokenType::True) => self.make_token(TokenType::True, Some(LoxValue::Boolean(true))),
            Some(TokenType::False) => self.make_token(TokenType::False, Some(LoxValue::Boolean(false))),
            Some(t) => self.make_token(t, None),
            None => {
                let name = self.get_string(self.start, self.current);
                self.make_token(TokenType::Identifier, Some(LoxValue::String(name)))
            },
        }
    }

    /// Scans the token that starts at the next character.
    fn scan_token(&mut self) -> (r: Option<Token>)
        requires
            old(self).wf(),
            old(self).start == old(self).current,
            old(self).current < old(self).source@.len(),
        ensures
            final(self).wf(),
            final(self).source@ == old(self).source@,
            final(self).current > old(self).current,
            (opt_view(r), final(self).state()) == scan_token_spec(old(self).source@, old(self).state()),
    {
        let c = self.advance();
        let r = if c == '(' {
            Some(self.make_token(TokenType::LeftParen, None))
        } else if c == ')' {
            Some(self.make_token(TokenType::RightParen, None))
        } else if c == '{' {
            Some(self.make_token(TokenType::LeftBrace, None))
        } else if c == '}' {
            Some(self.make_token(TokenType::RightBrace, None))
        } else if c == ',' {
            Some(self.make_token(TokenType::Comma, None))
        } else if c == '.' {
            Some(self.make_token(TokenType::Dot, None))
        } else if c == '?' {
            Some(self.make_token(TokenType::QuestionMark, None))
        } else if c == '-' {
            Some(self.make_token(TokenType::Minus, None))
        } else if c == '+' {
            Some(self.make_token(TokenType::Plus, None))
        } else if c == '*' {
            Some(self.make_token(TokenType::Star, None))
        } else if c == ';' {
            Some(self.make_token(TokenType::Semicolon, None))
        } else if c == ':' {
            Some(self.make_token(TokenType::Colon, None))
        } else if c == '!' {
            let t = if self.matches_next('=') {
                TokenType::BangEqual
            } else {
                TokenType::Bang
            };
            let tk = self.make_token(t, None);
            Some(tk)
        } else if c == '=' {
            let t = if self.matches_next('=') {
                TokenType::EqualEqual
            } else {
                TokenType::Equal
            };
            let tk = self.make_token(t, None);
            Some(tk)
        } else if c == '<' {
            let t = if self.matches_next('=') {
                TokenType::LessEqual
            } else {
                TokenType::Less
            };
            let tk = self.make_token(t, None);
            Some(tk)
        } else if c == '>' {
            let t = if self.matches_next('=') {
                TokenType::GreaterEqual
            } else {
                TokenType::Greater
            };
            let tk = self.make_token(t, None);
            Some(tk)
        } else if c == '/' {
            self.scan_comment()
        } else if c == '"' {
            let t = self.scan_string();
            Some(t)
        } else if '0' <= c && c <= '9' {
            let t = self.scan_number();
            Some(t)
        } else if is_valid_ident_char(c) {
            let t = self.scan_identifier();
            Some(t)
        } else {
            if c == '\n' {
                if self.line < usize::MAX {
                    self.line = self.line + 1;
                }
                self.column = 1;
            }
            None
        };
        r
    }

    /// Scans the whole source; the tokens end with the end-of-file token.
    pub fn scan_tokens(&mut self) -> (r: Vec<Token>)
        requires
            old(self).wf(),
        ensures
            token_views(r@) == scan_from(old(self).chars(), old(self).state(), Seq::empty()),
            r@.len() >= 1,
            r@.last().token_type == TokenType::Eof,
            forall|i: int| 0 <= i < r@.len() - 1 ==> (#[trigger] r@[i]).token_type != TokenType::Eof,
    {
        let mut out: Vec<Token> = Vec::new();
        let ghost src = self.source@;
        proof {
            assert(token_views(out@) =~= Seq::<TokenView>::empty());
        }
        while !self.is_at_end()
            invariant
                self.wf(),
                self.source@ == src,
                forall|i: int| 0 <= i < out@.len() ==> (#[trigger] out@[i]).token_type != TokenType::Eof,
                scan_from(src, old(self).state(), Seq::empty()) == scan_from(src, self.state(), token_views(out@)),
            decreases self.source@.len() - self.current,
        {
            self.start = self.current;
            let ghost acc = token_views(out@);
            match self.scan_token() {
                Some(t) => {
                    if t.token_type != TokenType::Eof {
                        proof {
                            assert(token_views(out@.push(t)) =~= acc.push(t@));
                        }
                        out.push(t);
                    }
                },
                None => {},
            }
        }
        let position = self.position();
        let eof = Token::new(TokenType::Eof, None, position);
        proof {
            assert(token_views(out@.push(eof)) =~= token_views(out@).push(eof@));
        }
        out.push(eof);
        out
    }

    /// The tokens of `source`.
    pub fn tokens_from_str(source: &str) -> (r: Vec<Token>)
        ensures
            token_views(r@) == scan(source@),
            r@.len() >= 1,
            r@.last().token_type == TokenType::Eof,
            forall|i: int| 0 <= i < r@.len() - 1 ==> (#[trigger] r@[i]).token_type != TokenType::Eof,
    {
        let mut scanner = Scanner::new(source);
        scanner.scan_tokens()
    }
}

} // verus!
