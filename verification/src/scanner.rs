use vstd::prelude::*;

verus! {

/// The byte classes the scanner distinguishes. The source is treated as a
/// byte sequence; every token class of the grammar is ASCII, and any other
/// byte is unclassified input.
pub open spec fn is_digit_byte(c: u8) -> bool {
    48 <= c && c <= 57
}

pub open spec fn is_alpha_byte(c: u8) -> bool {
    (97 <= c && c <= 122) || (65 <= c && c <= 90) || c == 95
}

/// Whitespace skipped between tokens; newlines are counted separately to
/// keep the line counter accurate.
pub open spec fn is_blank_byte(c: u8) -> bool {
    c == 32 || c == 13 || c == 9 || c == 10
}

/// First position at or after `i` that does not hold whitespace.
pub open spec fn blank_end(s: Seq<u8>, i: int) -> int
    decreases s.len() - i,
{
    if 0 <= i && i < s.len() && is_blank_byte(s[i]) {
        blank_end(s, i + 1)
    } else {
        i
    }
}

/// Number of newline bytes in `s[i..j)`.
pub open spec fn newlines_between(s: Seq<u8>, i: int, j: int) -> int
    decreases j - i,
{
    if 0 <= i && i < j && j <= s.len() {
        newlines_between(s, i, j - 1) + if s[j - 1] == 10 { 1int } else { 0int }
    } else {
        0
    }
}

/// End of the digit run starting at `i`.
pub open spec fn digits_end(s: Seq<u8>, i: int) -> int
    decreases s.len() - i,
{
    if 0 <= i && i < s.len() && is_digit_byte(s[i]) {
        digits_end(s, i + 1)
    } else {
        i
    }
}

/// End of the identifier run starting at `i`.
pub open spec fn alpha_end(s: Seq<u8>, i: int) -> int
    decreases s.len() - i,
{
    if 0 <= i && i < s.len() && is_alpha_byte(s[i]) {
        alpha_end(s, i + 1)
    } else {
        i
    }
}

/// End of a numeral starting at a digit at `i`: a digit run, then a
/// fractional digit run exactly when a '.' is immediately followed by
/// another digit. A second decimal point is never accepted.
pub open spec fn numeral_end(s: Seq<u8>, i: int) -> int {
    let d = digits_end(s, i);
    if d + 1 < s.len() && s[d] == 46 && is_digit_byte(s[d + 1]) {
        digits_end(s, d + 1)
    } else {
        d
    }
}

/// Where a string literal opened just before `i` stops: the position of the
/// closing quote, or of the end-of-input sentinel, or the end of the buffer.
pub open spec fn string_stop(s: Seq<u8>, i: int) -> int
    decreases s.len() - i,
{
    if 0 <= i && i < s.len() && s[i] != 34 && s[i] != 0 {
        string_stop(s, i + 1)
    } else {
        i
    }
}

/// Shape of a numeral lexeme: `digits ('.' digits)?`.
pub open spec fn is_numeral(s: Seq<u8>) -> bool {
    let d = digits_end(s, 0);
    &&& s.len() > 0
    &&& is_digit_byte(s[0])
    &&& (d == s.len() || (d + 1 < s.len() && s[d] == 46 && digits_end(s, d + 1) == s.len()))
}

/// The digit run starting at `i` ends exactly at `k` when everything before
/// `k` is a digit and `k` stands at a non-digit or at the end.
pub proof fn lemma_digits_end_is(s: Seq<u8>, i: int, k: int)
    requires
        0 <= i <= k <= s.len(),
        forall|m: int| i <= m < k ==> is_digit_byte(s[m]),
        k == s.len() || !is_digit_byte(s[k]),
    ensures
        digits_end(s, i) == k,
    decreases k - i,
{
    if i < k {
        assert(is_digit_byte(s[i]));
        lemma_digits_end_is(s, i + 1, k);
    }
}

/// Bounds and content of a digit run: it stays inside the buffer, holds only
/// digits, and stops at the first non-digit.
pub proof fn lemma_digits_end_bounds(s: Seq<u8>, i: int)
    requires
        0 <= i <= s.len(),
    ensures
        i <= digits_end(s, i) <= s.len(),
        digits_end(s, i) < s.len() ==> !is_digit_byte(s[digits_end(s, i)]),
        forall|m: int| i <= m < digits_end(s, i) ==> is_digit_byte(s[m]),
    decreases s.len() - i,
{
    if i < s.len() && is_digit_byte(s[i]) {
        lemma_digits_end_bounds(s, i + 1);
    }
}

/// Bounds and content of an identifier run.
pub proof fn lemma_alpha_end_bounds(s: Seq<u8>, i: int)
    requires
        0 <= i <= s.len(),
    ensures
        i <= alpha_end(s, i) <= s.len(),
    decreases s.len() - i,
{
    if i < s.len() && is_alpha_byte(s[i]) {
        lemma_alpha_end_bounds(s, i + 1);
    }
}

/// Bounds of a string literal's body scan.
pub proof fn lemma_string_stop_bounds(s: Seq<u8>, i: int)
    requires
        0 <= i <= s.len(),
    ensures
        i <= string_stop(s, i) <= s.len(),
    decreases s.len() - i,
{
    if i < s.len() && s[i] != 34 && s[i] != 0 {
        lemma_string_stop_bounds(s, i + 1);
    }
}

/// Bounds and content of a whitespace run.
pub proof fn lemma_blank_end_bounds(s: Seq<u8>, i: int)
    requires
        0 <= i <= s.len(),
    ensures
        i <= blank_end(s, i) <= s.len(),
        blank_end(s, i) < s.len() ==> !is_blank_byte(s[blank_end(s, i)]),
    decreases s.len() - i,
{
    if i < s.len() && is_blank_byte(s[i]) {
        lemma_blank_end_bounds(s, i + 1);
    }
}

/// Every token stays inside the buffer, and every token scanned strictly
/// before the end of the buffer consumes at least one byte.
pub proof fn lemma_token_end_bounds(s: Seq<u8>, i: int)
    requires
        0 <= i <= s.len(),
    ensures
        i <= token_end_at(s, i) <= s.len(),
        i < s.len() ==> i < token_end_at(s, i),
    decreases 0int,
{
    if i < s.len() {
        let c = s[i];
        if is_digit_byte(c) {
            assert(digits_end(s, i) == digits_end(s, i + 1));
            lemma_digits_end_bounds(s, i + 1);
            let d = digits_end(s, i);
            if d + 1 < s.len() && s[d] == 46 && is_digit_byte(s[d + 1]) {
                lemma_digits_end_bounds(s, d + 1);
            }
        } else if is_alpha_byte(c) {
            assert(alpha_end(s, i) == alpha_end(s, i + 1));
            lemma_alpha_end_bounds(s, i + 1);
        } else if c == 34 {
            lemma_string_stop_bounds(s, i + 1);
        }
    }
}

/// A token whose kind is `Number` covers a well-shaped numeral: its lexeme
/// matches `digits ('.' digits)?` exactly.
pub proof fn lemma_number_token_is_numeral(s: Seq<u8>, i: int)
    requires
        0 <= i < s.len(),
        token_kind_at(s, i) == TokenType::Number,
    ensures
        i < token_end_at(s, i) <= s.len(),
        is_numeral(s.subrange(i, token_end_at(s, i))),
{
    lemma_token_end_bounds(s, i);
    let e = token_end_at(s, i);
    let sub = s.subrange(i, e);
    lemma_digits_end_bounds(s, i);
    let d = digits_end(s, i);
    if d + 1 < s.len() && s[d] == 46 && is_digit_byte(s[d + 1]) {
        // fractional numeral: digits, '.', digits
        lemma_digits_end_bounds(s, d + 1);
        assert(e == digits_end(s, d + 1));
        assert(forall|m: int| 0 <= m < d - i ==> is_digit_byte(sub[m]));
        lemma_digits_end_is(sub, 0, d - i);
        assert(forall|m: int| d - i + 1 <= m < e - i ==> is_digit_byte(sub[m]));
        lemma_digits_end_is(sub, d - i + 1, e - i);
        assert(sub[d - i] == 46);
    } else {
        // plain digit run
        assert(e == d);
        assert(forall|m: int| 0 <= m < e - i ==> is_digit_byte(sub[m]));
        lemma_digits_end_is(sub, 0, e - i);
    }
}

/// For any maximal numeral `digits ('.' digits)?` standing at `s[i..j)`,
/// scanning at `i` yields exactly one `Number` token covering exactly those
/// bytes. Maximality: no digit follows at `j`, and an all-digit numeral is
/// not followed by '.' and another digit.
pub proof fn lemma_numeral_scans_as_number(s: Seq<u8>, i: int, j: int)
    requires
        0 <= i < j <= s.len(),
        is_numeral(s.subrange(i, j)),
        j < s.len() ==> !is_digit_byte(s[j]),
        (j + 1 < s.len() && s[j] == 46 && digits_end(s.subrange(i, j), 0) == j - i)
            ==> !is_digit_byte(s[j + 1]),
    ensures
        token_kind_at(s, i) == TokenType::Number,
        token_end_at(s, i) == j,
{
    let sub = s.subrange(i, j);
    assert(s[i] == sub[0]);
    lemma_digits_end_bounds(sub, 0);
    let dsub = digits_end(sub, 0);
    assert forall|m: int| i <= m < i + dsub implies is_digit_byte(s[m]) by {
        assert(is_digit_byte(sub[m - i]));
    }
    if dsub == j - i {
        // the numeral is a plain digit run ending at j
        lemma_digits_end_is(s, i, j);
        assert(token_end_at(s, i) == numeral_end(s, i));
    } else {
        // the numeral carries a fractional part behind the '.' at i + dsub
        assert(sub[dsub] == 46 && dsub + 1 < j - i && digits_end(sub, dsub + 1) == j - i);
        let d = i + dsub;
        lemma_digits_end_is(s, i, d);
        lemma_digits_end_bounds(sub, dsub + 1);
        assert forall|m: int| d + 1 <= m < j implies is_digit_byte(s[m]) by {
            assert(is_digit_byte(sub[m - i]));
        }
        assert(is_digit_byte(s[d + 1]));
        lemma_digits_end_is(s, d + 1, j);
        assert(numeral_end(s, i) == j);
    }
}

/// In a buffer holding only whitespace and end-of-input sentinels, scanning
/// from any position yields an end-of-input token.
pub proof fn lemma_blank_input_scans_eof(s: Seq<u8>, i: int)
    requires
        0 <= i <= s.len(),
        forall|m: int| 0 <= m < s.len() ==> is_blank_byte(s[m]) || s[m] == 0,
    ensures
        token_kind_at(s, blank_end(s, i)) == TokenType::Eof,
        i <= token_end_at(s, blank_end(s, i)) <= s.len(),
{
    lemma_blank_end_bounds(s, i);
    let ws = blank_end(s, i);
    if ws < s.len() {
        assert(s[ws] == 0);
    }
    lemma_token_end_bounds(s, ws);
}

#[derive(Debug, Clone, Copy, PartialEq, Eq, Structural)]
pub enum TokenType {
    Plus,
    Minus,
    Slash,
    Star,
    Eof,
    OpenParen,
    CloseParen,
    Number,
    String,
    Identifier,
    Error,
}

/// The kind of the token whose first byte stands at `i` (whitespace already
/// skipped). Past the end of the buffer, and at the NUL sentinel, the scanner
/// reports end of input; an unclassified byte and an unterminated string
/// literal are `Error` tokens.
pub open spec fn token_kind_at(s: Seq<u8>, i: int) -> TokenType {
    if !(0 <= i && i < s.len()) {
        TokenType::Eof
    } else {
        let c = s[i];
        if c == 0 {
            TokenType::Eof
        } else if is_digit_byte(c) {
            TokenType::Number
        } else if is_alpha_byte(c) {
            TokenType::Identifier
        } else if c == 43 {
            TokenType::Plus
        } else if c == 45 {
            TokenType::Minus
        } else if c == 47 {
            TokenType::Slash
        } else if c == 42 {
            TokenType::Star
        } else if c == 40 {
            TokenType::OpenParen
        } else if c == 41 {
            TokenType::CloseParen
        } else if c == 34 {
            let stop = string_stop(s, i + 1);
            if stop < s.len() && s[stop] == 34 {
                TokenType::String
            } else {
                TokenType::Error
            }
        } else {
            TokenType::Error
        }
    }
}

/// One past the last byte of the token whose first byte stands at `i`.
pub open spec fn token_end_at(s: Seq<u8>, i: int) -> int {
    if !(0 <= i && i < s.len()) {
        i
    } else {
        let c = s[i];
        if c == 0 {
            i + 1
        } else if is_digit_byte(c) {
            numeral_end(s, i)
        } else if is_alpha_byte(c) {
            alpha_end(s, i)
        } else if c == 34 {
            let stop = string_stop(s, i + 1);
            if stop < s.len() && s[stop] == 34 {
                stop + 1
            } else {
                stop
            }
        } else {
            i + 1
        }
    }
}

/// A token: its kind, the exact byte range of its lexeme within the source
/// buffer, and the line it starts on. The lexeme is never owned; it is the
/// substring `source[start..start + length]` of the buffer the token was
/// scanned from, which must outlive the token.
#[derive(Debug, Clone, Copy, PartialEq, Eq, Structural)]
pub struct Token {
    pub token_type: TokenType,
    pub start: usize,
    pub length: usize,
    pub line: usize,
}

impl Token {
    pub fn new(token_type: TokenType, start: usize, length: usize, line: usize) -> (t: Token)
        ensures
            t == (Token { token_type, start, length, line }),
    {
        Token { token_type, start, length, line }
    }
}

/// An on-demand tokenizer over a source buffer: a restartable, finite lazy
/// sequence of tokens. `start` marks the first byte of the token being
/// scanned, `current` the next byte to look at, and `line` counts the
/// newlines seen so far.
pub struct Scanner<'a> {
    pub source: &'a Vec<u8>,
    pub start: usize,
    pub current: usize,
    pub line: usize,
}

impl<'a> Scanner<'a> {
    pub open spec fn wf(self) -> bool {
        &&& self.source@.len() < usize::MAX
        &&& self.start <= self.current
        &&& self.current <= self.source@.len()
        &&& self.line <= self.current + 1
    }

    pub fn new(source: &'a Vec<u8>) -> (sc: Scanner<'a>)
        requires
            source@.len() < usize::MAX,
        ensures
            sc.wf(),
            sc.source == source,
            sc.start == 0,
            sc.current == 0,
            sc.line == 1,
    {
        Scanner { source, start: 0, current: 0, line: 1 }
    }

    fn is_digit(c: u8) -> (r: bool)
        ensures
            r == is_digit_byte(c),
    {
        48 <= c && c <= 57
    }

    fn is_alpha(c: u8) -> (r: bool)
        ensures
            r == is_alpha_byte(c),
    {
        (97 <= c && c <= 122) || (65 <= c && c <= 90) || c == 95
    }

    /// Whether the next byte exists and is whitespace.
    fn blank_ahead(&self) -> (r: bool)
        requires
            self.wf(),
        ensures
            r == (self.current < self.source@.len() && is_blank_byte(
                self.source@[self.current as int],
            )),
    {
        if self.current < self.source.len() {
            let c = self.source[self.current];
            c == 32 || c == 13 || c == 9 || c == 10
        } else {
            false
        }
    }

    /// Whether the next byte exists and is a digit.
    fn digit_ahead(&self) -> (r: bool)
        requires
            self.wf(),
        ensures
            r == (self.current < self.source@.len() && is_digit_byte(
                self.source@[self.current as int],
            )),
    {
        if self.current < self.source.len() {
            Self::is_digit(self.source[self.current])
        } else {
            false
        }
    }

    /// Whether the next byte exists and can stand in an identifier.
    fn alpha_ahead(&self) -> (r: bool)
        requires
            self.wf(),
        ensures
            r == (self.current < self.source@.len() && is_alpha_byte(
                self.source@[self.current as int],
            )),
    {
        if self.current < self.source.len() {
            Self::is_alpha(self.source[self.current])
        } else {
            false
        }
    }

    /// Whether the next byte exists and lies inside a string literal's body:
    /// neither the closing quote nor the end-of-input sentinel.
    fn string_body_ahead(&self) -> (r: bool)
        requires
            self.wf(),
        ensures
            r == (self.current < self.source@.len() && self.source@[self.current as int] != 34
                && self.source@[self.current as int] != 0),
    {
        if self.current < self.source.len() {
            let c = self.source[self.current];
            c != 34 && c != 0
        } else {
            false
        }
    }

    /// The token covering `source[start..current]` at the current line.
    fn make_token(&self, token_type: TokenType) -> (t: Token)
        requires
            self.wf(),
        ensures
            t == (Token {
                token_type,
                start: self.start,
                length: (self.current - self.start) as usize,
                line: self.line,
            }),
    {
        Token::new(token_type, self.start, self.current - self.start, self.line)
    }

    /// Skips whitespace, counting the newlines passed.
    fn skip_whitespace(&mut self)
        requires
            old(self).wf(),
        ensures
            final(self).wf(),
            final(self).source == old(self).source,
            final(self).start == old(self).start,
            final(self).current as int == blank_end(old(self).source@, old(self).current as int),
            final(self).line as int == old(self).line + newlines_between(
                old(self).source@,
                old(self).current as int,
                final(self).current as int,
            ),
    {
        let ghost s = self.source@;
        let ghost src = self.source;
        let ghost st0 = self.start;
        let ghost c0 = self.current as int;
        let ghost l0 = self.line as int;
        while self.blank_ahead()
            invariant
                self.wf(),
                self.source == src,
                self.source@ == s,
                self.start == st0,
                0 <= c0,
                c0 <= self.current as int,
                blank_end(s, c0) == blank_end(s, self.current as int),
                self.line as int == l0 + newlines_between(s, c0, self.current as int),
            decreases s.len() - self.current,
        {
            proof {
                assert(newlines_between(s, c0, self.current + 1) == newlines_between(
                    s,
                    c0,
                    self.current as int,
                ) + if s[self.current as int] == 10 {
                    1int
                } else {
                    0int
                });
            }
            if self.source[self.current] == 10 {
                self.line = self.line + 1;
            }
            self.current = self.current + 1;
        }
    }

    /// Consumes the rest of a numeral whose first digit stands at `start`
    /// and has just been consumed.
    fn number(&mut self) -> (t: Token)
        requires
            old(self).wf(),
            old(self).current == old(self).start + 1,
            old(self).current <= old(self).source@.len(),
            is_digit_byte(old(self).source@[old(self).start as int]),
        ensures
            final(self).wf(),
            final(self).source == old(self).source,
            final(self).start == old(self).start,
            final(self).line == old(self).line,
            final(self).current as int == numeral_end(old(self).source@, old(self).start as int),
            t == (Token {
                token_type: TokenType::Number,
                start: old(self).start,
                length: (final(self).current - old(self).start) as usize,
                line: old(self).line,
            }),
    {
        let ghost s = self.source@;
        let ghost src = self.source;
        let ghost st = self.start as int;
        let ghost l0 = self.line;
        while self.digit_ahead()
            invariant
                self.wf(),
                self.source == src,
                self.source@ == s,
                self.start as int == st,
                self.line == l0,
                st < self.current as int,
                digits_end(s, st) == digits_end(s, self.current as int),
            decreases s.len() - self.current,
        {
            self.current = self.current + 1;
        }
        let d = self.current;
        if d + 1 < self.source.len() {
            if self.source[d] == 46 && Self::is_digit(self.source[d + 1]) {
                self.current = d + 1;
                while self.digit_ahead()
                    invariant
                        self.wf(),
                        self.source == src,
                        self.source@ == s,
                        self.start as int == st,
                        self.line == l0,
                        st < d as int,
                        (d as int) < self.current as int,
                        digits_end(s, d + 1) == digits_end(s, self.current as int),
                    decreases s.len() - self.current,
                {
                    self.current = self.current + 1;
                }
            }
        }
        self.make_token(TokenType::Number)
    }

    /// Consumes the rest of an identifier whose first byte stands at `start`
    /// and has just been consumed.
    fn identifier(&mut self) -> (t: Token)
        requires
            old(self).wf(),
            old(self).current == old(self).start + 1,
            old(self).current <= old(self).source@.len(),
            is_alpha_byte(old(self).source@[old(self).start as int]),
        ensures
            final(self).wf(),
            final(self).source == old(self).source,
            final(self).start == old(self).start,
            final(self).line == old(self).line,
            final(self).current as int == alpha_end(old(self).source@, old(self).start as int),
            t == (Token {
                token_type: TokenType::Identifier,
                start: old(self).start,
                length: (final(self).current - old(self).start) as usize,
                line: old(self).line,
            }),
    {
        let ghost s = self.source@;
        let ghost src = self.source;
        let ghost st = self.start as int;
        let ghost l0 = self.line;
        while self.alpha_ahead()
            invariant
                self.wf(),
                self.source == src,
                self.source@ == s,
                self.start as int == st,
                self.line == l0,
                st < self.current as int,
                alpha_end(s, st) == alpha_end(s, self.current as int),
            decreases s.len() - self.current,
        {
            self.current = self.current + 1;
        }
        self.make_token(TokenType::Identifier)
    }

    /// Consumes a string literal whose opening quote stands at `start` and
    /// has just been consumed. An unterminated literal — end of input before
    /// the closing quote — is an `Error` token.
    fn string(&mut self) -> (t: Token)
        requires
            old(self).wf(),
            old(self).current == old(self).start + 1,
            old(self).current <= old(self).source@.len(),
        ensures
            final(self).wf(),
            final(self).source == old(self).source,
            final(self).start == old(self).start,
            final(self).line == old(self).line,
            ({
                let s = old(self).source@;
                let stop = string_stop(s, old(self).current as int);
                let closed = stop < s.len() && s[stop] == 34;
                &&& final(self).current as int == if closed { stop + 1 } else { stop }
                &&& t == (Token {
                    token_type: if closed { TokenType::String } else { TokenType::Error },
                    start: old(self).start,
                    length: (final(self).current - old(self).start) as usize,
                    line: old(self).line,
                })
            }),
    {
        let ghost s = self.source@;
        let ghost src = self.source;
        let ghost st = self.start;
        let ghost c0 = self.current as int;
        let ghost l0 = self.line;
        while self.string_body_ahead()
            invariant
                self.wf(),
                self.source == src,
                self.source@ == s,
                self.start == st,
                self.line == l0,
                c0 <= self.current as int,
                string_stop(s, c0) == string_stop(s, self.current as int),
            decreases s.len() - self.current,
        {
            self.current = self.current + 1;
        }
        if self.current < self.source.len() && self.source[self.current] == 34 {
            self.current = self.current + 1;
            self.make_token(TokenType::String)
        } else {
            self.make_token(TokenType::Error)
        }
    }

    /// Produces the next token: skips whitespace, then classifies the next
    /// byte. The token's lexeme is the exact byte range consumed, and its
    /// line is the line counter at the token's first byte.
    pub fn scan_token(&mut self) -> (t: Token)
        requires
            old(self).wf(),
        ensures
            final(self).wf(),
            final(self).source == old(self).source,
            ({
                let s = old(self).source@;
                let ws = blank_end(s, old(self).current as int);
                let lin = old(self).line + newlines_between(s, old(self).current as int, ws);
                &&& t.token_type == token_kind_at(s, ws)
                &&& t.start as int == ws
                &&& t.start + t.length == token_end_at(s, ws)
                &&& t.line as int == lin
                &&& final(self).start as int == ws
                &&& final(self).current as int == token_end_at(s, ws)
                &&& final(self).line as int == lin
            }),
    {
        self.skip_whitespace();
        self.start = self.current;
        if self.current >= self.source.len() {
            return self.make_token(TokenType::Eof);
        }
        let c = self.source[self.current];
        self.current = self.current + 1;
        if Self::is_digit(c) {
            return self.number();
        }
        if Self::is_alpha(c) {
            return self.identifier();
        }
        if c == 0 {
            return self.make_token(TokenType::Eof);
        }
        match c {
            43 => self.make_token(TokenType::Plus),
            34 => self.string(),
            45 => self.make_token(TokenType::Minus),
            47 => self.make_token(TokenType::Slash),
            42 => self.make_token(TokenType::Star),
            40 => self.make_token(TokenType::OpenParen),
            41 => self.make_token(TokenType::CloseParen),
            _ => self.make_token(TokenType::Error),
        }
    }
}

} // verus!
