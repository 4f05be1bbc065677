//! The lexer: turns source text into a stream of tokens, one token per call.
//!
//! The specification-level functions (`skip_ws`, `spec_next_token`,
//! `spec_tokens`) define tokenization mathematically over a sequence of
//! characters; `Lexer::next_token` is proved to follow them exactly.

use crate::token::{str_eq, Token, TokenV};
use vstd::prelude::*;

verus! {

/// Whitespace accepted between tokens.
pub open spec fn is_ws(c: char) -> bool {
    c == ' ' || c == '\t' || c == '\n' || c == '\r'
}

/// A letter, which may begin an identifier or keyword.
pub open spec fn is_letter(c: char) -> bool {
    (('a' as u32) <= (c as u32) && (c as u32) <= ('z' as u32)) || (('A' as u32) <= (c as u32) && (c
        as u32) <= ('Z' as u32))
}

/// A character that may continue an identifier.
pub open spec fn is_ident_char(c: char) -> bool {
    is_letter(c) || c == '_'
}

/// A decimal digit.
pub open spec fn is_digit(c: char) -> bool {
    ('0' as u32) <= (c as u32) && (c as u32) <= ('9' as u32)
}

/// Numeric value of a decimal digit character.
pub open spec fn digit_val(c: char) -> int {
    (c as u32) as int - ('0' as u32) as int
}

/// Value of a run of decimal digit characters, most significant first.
pub open spec fn digits_val(s: Seq<char>) -> int
    decreases s.len(),
{
    if s.len() == 0 {
        0
    } else {
        digits_val(s.drop_last()) * 10 + digit_val(s.last())
    }
}

/// Index of the first non-whitespace character at or after `pos`.
pub open spec fn skip_ws(s: Seq<char>, pos: int) -> int
    decreases s.len() - pos,
{
    if 0 <= pos && pos < s.len() && is_ws(s[pos]) {
        skip_ws(s, pos + 1)
    } else {
        pos
    }
}

/// Index of the first character at or after `pos` that cannot continue an
/// identifier.
pub open spec fn ident_end(s: Seq<char>, pos: int) -> int
    decreases s.len() - pos,
{
    if 0 <= pos && pos < s.len() && is_ident_char(s[pos]) {
        ident_end(s, pos + 1)
    } else {
        pos
    }
}

/// Index of the first character at or after `pos` that is not a digit.
pub open spec fn number_end(s: Seq<char>, pos: int) -> int
    decreases s.len() - pos,
{
    if 0 <= pos && pos < s.len() && is_digit(s[pos]) {
        number_end(s, pos + 1)
    } else {
        pos
    }
}

/// The token a word denotes: one of the keywords, or an identifier.
pub open spec fn keyword_token(w: Seq<char>) -> TokenV {
    if w == "let"@ {
        TokenV::Let
    } else if w == "fn"@ {
        TokenV::Function
    } else if w == "while"@ {
        TokenV::While
    } else if w == "for"@ {
        TokenV::For
    } else if w == "loop"@ {
        TokenV::Loop
    } else if w == "true"@ {
        TokenV::True
    } else if w == "false"@ {
        TokenV::False
    } else if w == "if"@ {
        TokenV::If
    } else if w == "else"@ {
        TokenV::Else
    } else if w == "return"@ {
        TokenV::Return
    } else {
        TokenV::Ident(w)
    }
}

/// The next token starting at `pos`, together with the position just past
/// it; `None` when only whitespace remains. A digit run whose value exceeds
/// `i64::MAX` and any unrecognized character become `Illegal`.
pub open spec fn spec_next_token(s: Seq<char>, pos: int) -> Option<(TokenV, int)> {
    let p = skip_ws(s, pos);
    if !(0 <= p && p < s.len()) {
        Option::None
    } else {
        let c = s[p];
        if c == '=' {
            if p + 1 < s.len() && s[p + 1] == '=' {
                Option::Some((TokenV::Equal, p + 2))
            } else {
                Option::Some((TokenV::Assign, p + 1))
            }
        } else if c == '!' {
            if p + 1 < s.len() && s[p + 1] == '=' {
                Option::Some((TokenV::NotEqual, p + 2))
            } else {
                Option::Some((TokenV::Bang, p + 1))
            }
        } else if c == ';' {
            Option::Some((TokenV::Semicolon, p + 1))
        } else if c == '(' {
            Option::Some((TokenV::Lparen, p + 1))
        } else if c == ')' {
            Option::Some((TokenV::Rparen, p + 1))
        } else if c == ',' {
            Option::Some((TokenV::Comma, p + 1))
        } else if c == '+' {
            Option::Some((TokenV::Plus, p + 1))
        } else if c == '{' {
            Option::Some((TokenV::Lbrace, p + 1))
        } else if c == '}' {
            Option::Some((TokenV::Rbrace, p + 1))
        } else if c == '>' {
            Option::Some((TokenV::Gt, p + 1))
        } else if c == '<' {
            Option::Some((TokenV::Lt, p + 1))
        } else if c == '-' {
            Option::Some((TokenV::Minus, p + 1))
        } else if c == '*' {
            Option::Some((TokenV::Asterisk, p + 1))
        } else if c == '/' {
            Option::Some((TokenV::Slash, p + 1))
        } else if is_letter(c) {
            let e = ident_end(s, p);
            Option::Some((keyword_token(s.subrange(p, e)), e))
        } else if is_digit(c) {
            let e = number_end(s, p);
            let v = digits_val(s.subrange(p, e));
            if v <= i64::MAX {
                Option::Some((TokenV::Int(v as i64), e))
            } else {
                Option::Some((TokenV::Illegal, e))
            }
        } else {
            Option::Some((TokenV::Illegal, p + 1))
        }
    }
}

/// Keeps a successor position inside `(pos, s.len()]`; identical to `p`
/// whenever `p` already lies there, which `lemma_next_token_advances` shows
/// is always the case for positions produced by `spec_next_token`.
pub open spec fn bounded_step(s: Seq<char>, pos: int, p: int) -> int {
    if pos < p && p <= s.len() {
        p
    } else {
        pos + 1
    }
}

/// The whole token stream of `s` starting at `pos`.
pub open spec fn spec_tokens(s: Seq<char>, pos: int) -> Seq<TokenV>
    decreases s.len() - pos,
{
    if !(0 <= pos && pos < s.len()) {
        Seq::empty()
    } else {
        match spec_next_token(s, pos) {
            Option::None => Seq::empty(),
            Option::Some((t, p)) => seq![t] + spec_tokens(s, bounded_step(s, pos, p)),
        }
    }
}

/// Extending a subrange by one position appends that character.
pub proof fn lemma_subrange_push(s: Seq<char>, a: int, b: int, c: char)
    requires
        0 <= a <= b < s.len(),
        c == s[b],
    ensures
        s.subrange(a, b + 1) == s.subrange(a, b).push(c),
{
    assert(s.subrange(a, b + 1) =~= s.subrange(a, b).push(c));
}

/// `skip_ws` never moves backwards and never runs past the end.
pub proof fn lemma_skip_ws_bounds(s: Seq<char>, pos: int)
    requires
        0 <= pos <= s.len(),
    ensures
        pos <= skip_ws(s, pos) <= s.len(),
    decreases s.len() - pos,
{
    if pos < s.len() && is_ws(s[pos]) {
        lemma_skip_ws_bounds(s, pos + 1);
    }
}

/// `ident_end` never moves backwards and never runs past the end.
pub proof fn lemma_ident_end_bounds(s: Seq<char>, pos: int)
    requires
        0 <= pos <= s.len(),
    ensures
        pos <= ident_end(s, pos) <= s.len(),
    decreases s.len() - pos,
{
    if pos < s.len() && is_ident_char(s[pos]) {
        lemma_ident_end_bounds(s, pos + 1);
    }
}

/// `number_end` never moves backwards and never runs past the end.
pub proof fn lemma_number_end_bounds(s: Seq<char>, pos: int)
    requires
        0 <= pos <= s.len(),
    ensures
        pos <= number_end(s, pos) <= s.len(),
    decreases s.len() - pos,
{
    if pos < s.len() && is_digit(s[pos]) {
        lemma_number_end_bounds(s, pos + 1);
    }
}

/// A token produced at `pos` always ends strictly past `pos` and within the
/// input, so `bounded_step` is the identity on its end position.
pub proof fn lemma_next_token_advances(s: Seq<char>, pos: int)
    requires
        0 <= pos <= s.len(),
        spec_next_token(s, pos) is Some,
    ensures
        pos < spec_next_token(s, pos)->Some_0.1 <= s.len(),
{
    let p = skip_ws(s, pos);
    lemma_skip_ws_bounds(s, pos);
    if 0 <= p && p < s.len() {
        let c = s[p];
        if is_letter(c) {
            lemma_ident_end_bounds(s, p + 1);
            assert(ident_end(s, p) == ident_end(s, p + 1));
        } else if !(c == '=' || c == '!' || c == ';' || c == '(' || c == ')' || c == ',' || c == '+'
            || c == '{' || c == '}' || c == '>' || c == '<' || c == '-' || c == '*' || c == '/')
            && is_digit(c) {
            lemma_number_end_bounds(s, p + 1);
            assert(number_end(s, p) == number_end(s, p + 1));
        }
    }
}

/// The mathematical state of a lexer: the full input and the position of
/// the next unread character.
pub struct LexerV {
    pub chars: Seq<char>,
    pub pos: int,
}

/// A pull-based lexer over a borrowed source string. `position` counts
/// characters, not bytes.
#[derive(Debug)]
pub struct Lexer<'a> {
    input: &'a str,
    length: usize,
    position: usize,
}

impl<'a> View for Lexer<'a> {
    type V = LexerV;

    closed spec fn view(&self) -> LexerV {
        LexerV { chars: self.input@, pos: self.position as int }
    }
}

impl<'a> Lexer<'a> {
    /// The cached character count agrees with the input and the position
    /// has not run past the end.
    pub closed spec fn wf(&self) -> bool {
        self.length == self.input@.len() && self.position <= self.length
    }

    /// A well-formed lexer's position lies within its input.
    pub proof fn wf_bounds(&self)
        requires
            self.wf(),
        ensures
            0 <= self@.pos <= self@.chars.len(),
    {
    }

    /// A lexer positioned at the start of `input`.
    pub fn new(input: &'a str) -> (l: Lexer<'a>)
        ensures
            l.wf(),
            l@.chars == input@,
            l@.pos == 0,
    {
        let length = input.unicode_len();
        Lexer { input, length, position: 0 }
    }

    /// Lookahead of one character.
    fn peek_char(&self) -> (c: Option<char>)
        requires
            self.wf(),
        ensures
            c == (if self@.pos < self@.chars.len() {
                Option::Some(self@.chars[self@.pos])
            } else {
                Option::<char>::None
            }),
    {
        if self.position < self.length {
            Some(self.input.get_char(self.position))
        } else {
            None
        }
    }

    /// Consume and return one character.
    fn read_char(&mut self) -> (c: Option<char>)
        requires
            old(self).wf(),
        ensures
            final(self).wf(),
            final(self)@.chars == old(self)@.chars,
            c == (if old(self)@.pos < old(self)@.chars.len() {
                Option::Some(old(self)@.chars[old(self)@.pos])
            } else {
                Option::<char>::None
            }),
            final(self)@.pos == (if old(self)@.pos < old(self)@.chars.len() {
                old(self)@.pos + 1
            } else {
                old(self)@.pos
            }),
    {
        if self.position < self.length {
            let c = self.input.get_char(self.position);
            self.position = self.position + 1;
            Some(c)
        } else {
            None
        }
    }

    /// Advance past any whitespace.
    fn skip_whitespace(&mut self)
        requires
            old(self).wf(),
        ensures
            final(self).wf(),
            final(self)@.chars == old(self)@.chars,
            final(self)@.pos == skip_ws(old(self)@.chars, old(self)@.pos),
    {
        loop
            invariant
                self.wf(),
                self@.chars == old(self)@.chars,
                skip_ws(self@.chars, self@.pos) == skip_ws(old(self)@.chars, old(self)@.pos),
            ensures
                self.wf(),
                self@.chars == old(self)@.chars,
                self@.pos == skip_ws(old(self)@.chars, old(self)@.pos),
            decreases self@.chars.len() - self@.pos,
        {
            if self.position >= self.length {
                break ;
            }
            let c = self.input.get_char(self.position);
            if !(c == ' ' || c == '\t' || c == '\n' || c == '\r') {
                break ;
            }
            self.position = self.position + 1;
        }
    }

    /// Whether `ch` may continue an identifier.
    fn valid_identifier(ch: char) -> (b: bool)
        ensures
            b == is_ident_char(ch),
    {
        Lexer::letter(ch) || ch == '_'
    }

    /// Whether `ch` is a letter.
    fn letter(ch: char) -> (b: bool)
        ensures
            b == is_letter(ch),
    {
        let u = ch as u32;
        (('a' as u32) <= u && u <= ('z' as u32)) || (('A' as u32) <= u && u <= ('A' as u32) + 25)
    }

    /// Whether `ch` is a decimal digit.
    fn digit(ch: char) -> (b: bool)
        ensures
            b == is_digit(ch),
    {
        let u = ch as u32;
        ('0' as u32) <= u && u <= ('9' as u32)
    }

    /// Scan an identifier starting at the current position; returns its
    /// start and end character indices.
    fn read_identifier(&mut self) -> (r: (usize, usize))
        requires
            old(self).wf(),
        ensures
            final(self).wf(),
            final(self)@.chars == old(self)@.chars,
            r.0 == old(self)@.pos,
            r.1 == final(self)@.pos,
            old(self)@.pos <= final(self)@.pos,
            final(self)@.pos == ident_end(old(self)@.chars, old(self)@.pos),
    {
        let start = self.position;
        loop
            invariant
                self.wf(),
                self@.chars == old(self)@.chars,
                start <= self@.pos,
                ident_end(self@.chars, self@.pos) == ident_end(old(self)@.chars, old(self)@.pos),
            ensures
                self.wf(),
                self@.chars == old(self)@.chars,
                start <= self@.pos,
                self@.pos == ident_end(old(self)@.chars, old(self)@.pos),
            decreases self@.chars.len() - self@.pos,
        {
            if self.position >= self.length {
                break ;
            }
            let c = self.input.get_char(self.position);
            if !Lexer::valid_identifier(c) {
                break ;
            }
            self.position = self.position + 1;
        }
        (start, self.position)
    }

    /// Scan a run of digits starting at the current position and return its
    /// value, or `None` when the value does not fit in an `i64`. The whole
    /// run is consumed either way.
    fn read_number(&mut self) -> (r: Option<i64>)
        requires
            old(self).wf(),
        ensures
            final(self).wf(),
            final(self)@.chars == old(self)@.chars,
            final(self)@.pos == number_end(old(self)@.chars, old(self)@.pos),
            ({
                let v = digits_val(
                    old(self)@.chars.subrange(old(self)@.pos, final(self)@.pos),
                );
                if v <= i64::MAX {
                    r == Option::Some(v as i64)
                } else {
                    r is None
                }
            }),
    {
        let ghost s = self@.chars;
        let ghost start = self@.pos;
        let mut val: u64 = 0;
        let mut overflow: bool = false;
        proof {
            assert(s.subrange(start, start) =~= Seq::<char>::empty());
        }
        loop
            invariant
                self.wf(),
                self@.chars == s,
                0 <= start <= self@.pos,
                number_end(s, self@.pos) == number_end(s, start),
                !overflow ==> val <= i64::MAX && digits_val(s.subrange(start, self@.pos))
                    == val as int,
                overflow ==> digits_val(s.subrange(start, self@.pos)) > i64::MAX,
            ensures
                self.wf(),
                self@.chars == s,
                start <= self@.pos,
                self@.pos == number_end(s, start),
                !overflow ==> val <= i64::MAX && digits_val(s.subrange(start, self@.pos))
                    == val as int,
                overflow ==> digits_val(s.subrange(start, self@.pos)) > i64::MAX,
            decreases self@.chars.len() - self@.pos,
        {
            if self.position >= self.length {
                break ;
            }
            let c = self.input.get_char(self.position);
            if !Lexer::digit(c) {
                break ;
            }
            let d: u64 = ((c as u32) - ('0' as u32)) as u64;
            let ghost p0 = self@.pos;
            let ghost prefix = s.subrange(start, p0);
            proof {
                assert(self@.chars == s);
                assert(start <= p0 < s.len());
                assert(c == s[p0]);
                lemma_subrange_push(s, start, p0, c);
                assert(prefix.push(c).drop_last() =~= prefix);
                assert(digits_val(prefix.push(c)) == digits_val(prefix) * 10 + digit_val(c));
            }
            if !overflow {
                let limit = ((i64::MAX as u64) - d) / 10;
                if val > limit {
                    proof {
                        assert(val as int * 10 + d as int > i64::MAX) by (nonlinear_arith)
                            requires
                                val as int > ((i64::MAX as int) - d as int) / 10,
                                0 <= d as int <= 9,
                                val <= i64::MAX,
                        ;
                    }
                    overflow = true;
                } else {
                    proof {
                        assert(val as int * 10 + d as int <= i64::MAX) by (nonlinear_arith)
                            requires
                                val as int <= ((i64::MAX as int) - d as int) / 10,
                                0 <= d as int <= 9,
                        ;
                    }
                    val = val * 10 + d;
                }
            } else {
                proof {
                    assert(digits_val(prefix) * 10 + digit_val(c) > i64::MAX) by (nonlinear_arith)
                        requires
                            digits_val(prefix) > i64::MAX,
                            0 <= digit_val(c) <= 9,
                    ;
                }
            }
            self.position = self.position + 1;
        }
        if overflow {
            None
        } else {
            Some(val as i64)
        }
    }

    /// Produce the next token, or `None` once only whitespace remains.
    pub fn next_token(&mut self) -> (t: Option<Token>)
        requires
            old(self).wf(),
        ensures
            final(self).wf(),
            final(self)@.chars == old(self)@.chars,
            match spec_next_token(old(self)@.chars, old(self)@.pos) {
                Option::None => t is None && final(self)@.pos == skip_ws(
                    old(self)@.chars,
                    old(self)@.pos,
                ),
                Option::Some((tv, p)) => t matches Option::Some(tok) && tok@ == tv
                    && final(self)@.pos == p,
            },
    {
        self.skip_whitespace();
        let ghost s = self@.chars;
        let ghost p = self@.pos;
        if self.position >= self.length {
            return None;
        }
        let c = self.input.get_char(self.position);
        if c == '=' {
            self.position = self.position + 1;
            if let Some('=') = self.peek_char() {
                self.position = self.position + 1;
                Some(Token::EQ)
            } else {
                Some(Token::ASSIGN)
            }
        } else if c == '!' {
            self.position = self.position + 1;
            if let Some('=') = self.peek_char() {
                self.position = self.position + 1;
                Some(Token::NOT_EQ)
            } else {
                Some(Token::BANG)
            }
        } else if c == ';' {
            self.position = self.position + 1;
            Some(Token::SEMICOLON)
        } else if c == '(' {
            self.position = self.position + 1;
            Some(Token::LPAREN)
        } else if c == ')' {
            self.position = self.position + 1;
            Some(Token::RPAREN)
        } else if c == ',' {
            self.position = self.position + 1;
            Some(Token::COMMA)
        } else if c == '+' {
            self.position = self.position + 1;
            Some(Token::PLUS)
        } else if c == '{' {
            self.position = self.position + 1;
            Some(Token::LBRACE)
        } else if c == '}' {
            self.position = self.position + 1;
            Some(Token::RBRACE)
        } else if c == '>' {
            self.position = self.position + 1;
            Some(Token::GT)
        } else if c == '<' {
            self.position = self.position + 1;
            Some(Token::LT)
        } else if c == '-' {
            self.position = self.position + 1;
            Some(Token::MINUS)
        } else if c == '*' {
            self.position = self.position + 1;
            Some(Token::ASTERISK)
        } else if c == '/' {
            self.position = self.position + 1;
            Some(Token::SLASH)
        } else if Lexer::letter(c) {
            let (start, end) = self.read_identifier();
            proof {
                assert(ident_end(s, p) == ident_end(s, p + 1));
            }
            let word = self.input.substring_char(start, end);
            Some(determine_ident(word))
        } else if Lexer::digit(c) {
            proof {
                assert(number_end(s, p) == number_end(s, p + 1));
            }
            match self.read_number() {
                Some(v) => Some(Token::INT(v)),
                None => Some(Token::ILLEGAL),
            }
        } else {
            self.position = self.position + 1;
            Some(Token::ILLEGAL)
        }
    }
}

/// The token a scanned word denotes: a keyword where it matches one, an
/// identifier otherwise.
pub fn determine_ident(ident: &str) -> (t: Token)
    ensures
        t@ == keyword_token(ident@),
{
    if str_eq(ident, "let") {
        Token::LET
    } else if str_eq(ident, "fn") {
        Token::FUNCTION
    } else if str_eq(ident, "while") {
        Token::WHILE
    } else if str_eq(ident, "for") {
        Token::FOR
    } else if str_eq(ident, "loop") {
        Token::LOOP
    } else if str_eq(ident, "true") {
        Token::TRUE
    } else if str_eq(ident, "false") {
        Token::FALSE
    } else if str_eq(ident, "if") {
        Token::IF
    } else if str_eq(ident, "else") {
        Token::ELSE
    } else if str_eq(ident, "return") {
        Token::RETURN
    } else {
        Token::IDENT(ident.to_owned())
    }
}

} // verus!
