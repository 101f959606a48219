//! The assembler: tokenization of source text, and single-pass translation
//! of the token stream into a bytecode [`Program`] with label backpatching.

use vstd::prelude::*;

use crate::cursor::{
    alphabetic_char, alphanumeric_char, ascii_digit, ascii_whitespace, chars_to_string,
    is_alphabetic_char, is_alphanumeric_char, is_numeric_char, is_whitespace_char, numeric_char,
    scan_len, whitespace_char, Cursor, lemma_scan_len_pin,
};
use crate::float_bits::parse_f64_bits;
use crate::op_codes::{lemma_opcode_byte_roundtrip, InvalidOpCode, OpCode};
use crate::program::{patched, Program, CODE_LIMIT};
use crate::value::{str_eq_chars, Value, ValueV};

verus! {

/// One lexeme of source text. Text-carrying tokens own their text.
#[derive(Debug, PartialEq)]
pub enum Token {
    Whitespace,
    Comment,
    Int(i64),
    Float(u64),
    Str(String),
    Add,
    Sub,
    Mul,
    Div,
    Not,
    Le,
    Lt,
    Ge,
    Gt,
    Eq,
    Keyword(String),
    Flag(String),
    Jump(String),
    OptJump(String),
    End,
}

/// The mathematical shape of a [`Token`].
pub enum TokenV {
    Whitespace,
    Comment,
    Int(i64),
    Float(u64),
    Str(Seq<char>),
    Add,
    Sub,
    Mul,
    Div,
    Not,
    Le,
    Lt,
    Ge,
    Gt,
    Eq,
    Keyword(Seq<char>),
    Flag(Seq<char>),
    Jump(Seq<char>),
    OptJump(Seq<char>),
    End,
}

impl Clone for Token {
    fn clone(&self) -> (r: Self)
        ensures
            r == *self,
    {
        match self {
            Token::Whitespace => Token::Whitespace,
            Token::Comment => Token::Comment,
            Token::Int(i) => Token::Int(*i),
            Token::Float(bits) => Token::Float(*bits),
            Token::Str(s) => Token::Str(s.clone()),
            Token::Add => Token::Add,
            Token::Sub => Token::Sub,
            Token::Mul => Token::Mul,
            Token::Div => Token::Div,
            Token::Not => Token::Not,
            Token::Le => Token::Le,
            Token::Lt => Token::Lt,
            Token::Ge => Token::Ge,
            Token::Gt => Token::Gt,
            Token::Eq => Token::Eq,
            Token::Keyword(s) => Token::Keyword(s.clone()),
            Token::Flag(s) => Token::Flag(s.clone()),
            Token::Jump(s) => Token::Jump(s.clone()),
            Token::OptJump(s) => Token::OptJump(s.clone()),
            Token::End => Token::End,
        }
    }
}

impl View for Token {
    type V = TokenV;

    open spec fn view(&self) -> TokenV {
        match self {
            Token::Whitespace => TokenV::Whitespace,
            Token::Comment => TokenV::Comment,
            Token::Int(i) => TokenV::Int(*i),
            Token::Float(bits) => TokenV::Float(*bits),
            Token::Str(s) => TokenV::Str(s@),
            Token::Add => TokenV::Add,
            Token::Sub => TokenV::Sub,
            Token::Mul => TokenV::Mul,
            Token::Div => TokenV::Div,
            Token::Not => TokenV::Not,
            Token::Le => TokenV::Le,
            Token::Lt => TokenV::Lt,
            Token::Ge => TokenV::Ge,
            Token::Gt => TokenV::Gt,
            Token::Eq => TokenV::Eq,
            Token::Keyword(s) => TokenV::Keyword(s@),
            Token::Flag(s) => TokenV::Flag(s@),
            Token::Jump(s) => TokenV::Jump(s@),
            Token::OptJump(s) => TokenV::OptJump(s@),
            Token::End => TokenV::End,
        }
    }
}

/// The views of a sequence of tokens.
pub open spec fn tok_views(s: Seq<Token>) -> Seq<TokenV> {
    s.map_values(|t: Token| t@)
}

/// Taking token views commutes with appending.
pub proof fn lemma_tok_views_push(s: Seq<Token>, t: Token)
    ensures
        tok_views(s.push(t)) == tok_views(s).push(t@),
{
    assert(tok_views(s.push(t)) =~= tok_views(s).push(t@));
}

/// A fatal tokenization error; no token stream is produced.
#[derive(Debug, Clone, Copy, PartialEq, Eq, Structural)]
pub enum LexError {
    /// A character no token can start with.
    UnrecognizedChar(char),
    /// A numeric literal the numeric parser refuses (a non-ASCII digit in
    /// the run, or an integer too large for 64 bits).
    MalformedNumber,
}

/// The predicate a whitespace run is scanned by.
pub open spec fn ws_pred() -> spec_fn(char) -> bool {
    |c: char| ascii_whitespace(c)
}

/// The predicate a line comment is scanned by: anything up to a newline.
pub open spec fn comment_pred() -> spec_fn(char) -> bool {
    |c: char| c != '\n'
}

/// The predicate a numeric-literal run is scanned by.
pub open spec fn num_pred() -> spec_fn(char) -> bool {
    |c: char| numeric_char(c)
}

/// The predicate a string literal's body is scanned by: anything up to the
/// closing quote.
pub open spec fn str_pred() -> spec_fn(char) -> bool {
    |c: char| c != '\u{22}'
}

/// The predicate an identifier's tail is scanned by.
pub open spec fn ident_pred() -> spec_fn(char) -> bool {
    |c: char| alphanumeric_char(c) || c == '\u{5f}'
}

/// Whether every character of `s` is an ASCII decimal digit.
pub open spec fn all_ascii_digits(s: Seq<char>) -> bool {
    forall|j: int| 0 <= j < s.len() ==> ascii_digit(#[trigger] s[j])
}

/// The base-ten integer a digit string denotes.
pub open spec fn digits_to_int(s: Seq<char>) -> int
    decreases s.len(),
{
    if s.len() == 0 {
        0
    } else {
        digits_to_int(s.drop_last()) * 10 + (s.last() as int - '0' as int)
    }
}

/// What a run of numeric characters parses to as a signed 64-bit integer:
/// its base-ten value, provided it is nonempty, all ASCII digits, and the
/// value fits.
pub open spec fn spec_parse_i64(s: Seq<char>) -> Option<i64> {
    if s.len() > 0 && all_ascii_digits(s) && digits_to_int(s) <= i64::MAX {
        Some(digits_to_int(s) as i64)
    } else {
        None
    }
}

/// A digit string denotes a nonnegative value.
proof fn lemma_digits_nonneg(s: Seq<char>)
    requires
        all_ascii_digits(s),
    ensures
        digits_to_int(s) >= 0,
    decreases s.len(),
{
    if s.len() > 0 {
        assert(all_ascii_digits(s.drop_last()));
        lemma_digits_nonneg(s.drop_last());
    }
}

/// A digit string denotes at least what any of its prefixes denotes.
proof fn lemma_digits_prefix_le(s: Seq<char>, k: int)
    requires
        all_ascii_digits(s),
        0 <= k <= s.len(),
    ensures
        digits_to_int(s.take(k)) <= digits_to_int(s),
    decreases s.len(),
{
    if k == s.len() {
        assert(s.take(k) =~= s);
    } else {
        let d = s.drop_last();
        assert(all_ascii_digits(d));
        assert(d.take(k) =~= s.take(k));
        lemma_digits_prefix_le(d, k);
        lemma_digits_nonneg(d);
    }
}

/// Parse a digit run as a signed 64-bit integer; see [`spec_parse_i64`].
fn parse_i64_chars(v: &Vec<char>) -> (r: Option<i64>)
    ensures
        r == spec_parse_i64(v@),
{
    let n = v.len();
    if n == 0 {
        return None;
    }
    let mut acc: i64 = 0;
    let mut i: usize = 0;
    while i < n
        invariant
            0 <= i <= n,
            n == v@.len(),
            all_ascii_digits(v@.take(i as int)),
            acc == digits_to_int(v@.take(i as int)),
            acc >= 0,
        decreases n - i,
    {
        let c = v[i];
        if !(c >= '0' && c <= '9') {
            return None;
        }
        let d = (c as u32) - ('0' as u32);
        proof {
            assert(v@.take(i + 1).drop_last() =~= v@.take(i as int));
            assert(v@.take(i + 1).last() == v@[i as int]);
            assert(all_ascii_digits(v@.take(i + 1)));
        }
        let shifted = match acc.checked_mul(10) {
            Some(x) => x,
            None => {
                proof {
                    if all_ascii_digits(v@) {
                        lemma_digits_prefix_le(v@, i + 1);
                        assert(digits_to_int(v@.take(i + 1)) == acc * 10 + (v@[i as int] as int
                            - '0' as int));
                    }
                }
                return None;
            },
        };
        let next = match shifted.checked_add(d as i64) {
            Some(x) => x,
            None => {
                proof {
                    if all_ascii_digits(v@) {
                        lemma_digits_prefix_le(v@, i + 1);
                        assert(digits_to_int(v@.take(i + 1)) == acc * 10 + (v@[i as int] as int
                            - '0' as int));
                    }
                }
                return None;
            },
        };
        acc = next;
        i = i + 1;
    }
    proof {
        assert(v@.take(n as int) =~= v@);
    }
    Some(acc)
}

/// What tokenizing one lexeme starting at `pos` yields: `None` at the end
/// of the text, otherwise the token and the position just past it, or a
/// tokenization error. The lexical grammar, in match order: whitespace,
/// `//` line comments, single-character operators, two-character
/// comparison operators, numeric literals (a digit run, optionally with a
/// decimal point and a further run, parsed as an integer or floating-point
/// literal), quoteless string bodies between `"` delimiters, label and jump
/// sigils (`@`, `$`, `?`) followed by an identifier, and keywords (a letter
/// followed by alphanumerics or underscores). Anything else is a lexical
/// error.
pub open spec fn spec_next_token(s: Seq<char>, pos: int) -> Option<
    Result<(TokenV, int), LexError>,
> {
    if pos < 0 || pos >= s.len() {
        None
    } else {
        let ch = s[pos];
        Some(
            if whitespace_char(ch) {
                Ok((TokenV::Whitespace, pos + 1 + scan_len(s, pos + 1, ws_pred())))
            } else if ch == '/' && pos + 1 < s.len() && s[pos + 1] == '/' {
                Ok((TokenV::Comment, pos + 1 + scan_len(s, pos + 1, comment_pred())))
            } else if ch == '+' {
                Ok((TokenV::Add, pos + 1))
            } else if ch == '-' {
                Ok((TokenV::Sub, pos + 1))
            } else if ch == '*' {
                Ok((TokenV::Mul, pos + 1))
            } else if ch == '/' {
                Ok((TokenV::Div, pos + 1))
            } else if ch == '<' && pos + 1 < s.len() && s[pos + 1] == '=' {
                Ok((TokenV::Le, pos + 2))
            } else if ch == '>' && pos + 1 < s.len() && s[pos + 1] == '=' {
                Ok((TokenV::Ge, pos + 2))
            } else if ch == '<' {
                Ok((TokenV::Lt, pos + 1))
            } else if ch == '>' {
                Ok((TokenV::Gt, pos + 1))
            } else if ch == '=' {
                Ok((TokenV::Eq, pos + 1))
            } else if ch == '!' {
                Ok((TokenV::Not, pos + 1))
            } else if ascii_digit(ch) {
                spec_num_token(s, pos)
            } else if ch == '\u{22}' {
                let e = pos + 1 + scan_len(s, pos + 1, str_pred());
                Ok(
                    (
                        TokenV::Str(s.subrange(pos + 1, e)),
                        if e < s.len() {
                            e + 1
                        } else {
                            e
                        },
                    ),
                )
            } else if ch == '@' {
                let e = pos + 1 + scan_len(s, pos + 1, ident_pred());
                Ok((TokenV::Flag(s.subrange(pos + 1, e)), e))
            } else if ch == '$' {
                let e = pos + 1 + scan_len(s, pos + 1, ident_pred());
                Ok((TokenV::Jump(s.subrange(pos + 1, e)), e))
            } else if ch == '?' {
                let e = pos + 1 + scan_len(s, pos + 1, ident_pred());
                Ok((TokenV::OptJump(s.subrange(pos + 1, e)), e))
            } else if alphabetic_char(ch) {
                let e = pos + 1 + scan_len(s, pos + 1, ident_pred());
                Ok((TokenV::Keyword(s.subrange(pos, e)), e))
            } else {
                Err(LexError::UnrecognizedChar(ch))
            },
        )
    }
}

/// What a numeric literal starting at the digit at `pos` yields: the digit
/// run, then, if a decimal point follows, a further run, parsed as a
/// floating-point literal; otherwise the run parsed as an integer. A run
/// the parser refuses is a lexical error.
pub open spec fn spec_num_token(s: Seq<char>, pos: int) -> Result<(TokenV, int), LexError> {
    let e1 = pos + 1 + scan_len(s, pos + 1, num_pred());
    if e1 < s.len() && s[e1] == '.' {
        let e2 = e1 + 1 + scan_len(s, e1 + 1, num_pred());
        match parse_f64_bits(s.subrange(pos, e2)) {
            Some(bits) => Ok((TokenV::Float(bits), e2)),
            None => Err(LexError::MalformedNumber),
        }
    } else {
        match spec_parse_i64(s.subrange(pos, e1)) {
            Some(v) => Ok((TokenV::Int(v), e1)),
            None => Err(LexError::MalformedNumber),
        }
    }
}

impl Cursor {
    /// Tokenize one lexeme at the head: the next token, `Ok(None)` at the
    /// end of the text, or the tokenization error.
    pub fn next_token(&mut self) -> (r: Result<Option<Token>, LexError>)
        ensures
            final(self).text == old(self).text,
            match spec_next_token(old(self).text@, old(self).head as int) {
                None => r == Ok::<Option<Token>, LexError>(None) && final(self).head == old(
                    self,
                ).head,
                Some(Ok((tv, end))) => (match r {
                    Ok(Some(t)) => t@ == tv,
                    _ => false,
                }) && final(self).head == end,
                Some(Err(e)) => r == Err::<Option<Token>, LexError>(e),
            },
    {
        let ghost s = self.text@;
        let ghost pos = self.head as int;
        let ch = match self.bump() {
            Some(ch) => ch,
            None => {
                return Ok(None);
            },
        };
        if is_whitespace_char(ch) {
            let ghost start = self.head as int;
            let pred = (|c: char| -> (b: bool)
                ensures
                    b == ascii_whitespace(c),
                { c == ' ' || c == '\t' || c == '\n' || c == '\u{0C}' || c == '\r' });
            self.take_while(pred);
            proof {
                lemma_scan_len_pin(s, start, self.head as int, ws_pred());
            }
            Ok(Some(Token::Whitespace))
        } else if ch == '/' && self.peek_is('/') {
            let ghost start = self.head as int;
            let pred = (|c: char| -> (b: bool)
                ensures
                    b == (c != '\n'),
                { c != '\n' });
            self.take_while(pred);
            proof {
                lemma_scan_len_pin(s, start, self.head as int, comment_pred());
            }
            Ok(Some(Token::Comment))
        } else if ch == '+' {
            Ok(Some(Token::Add))
        } else if ch == '-' {
            Ok(Some(Token::Sub))
        } else if ch == '*' {
            Ok(Some(Token::Mul))
        } else if ch == '<' && self.peek_is('=') {
            let _ = self.bump();
            Ok(Some(Token::Le))
        } else if ch == '>' && self.peek_is('=') {
            let _ = self.bump();
            Ok(Some(Token::Ge))
        } else if ch == '/' {
            Ok(Some(Token::Div))
        } else if ch == '<' {
            Ok(Some(Token::Lt))
        } else if ch == '>' {
            Ok(Some(Token::Gt))
        } else if ch == '=' {
            Ok(Some(Token::Eq))
        } else if ch == '!' {
            Ok(Some(Token::Not))
        } else if ch >= '0' && ch <= '9' {
            match self.parse_num(self.head - 1) {
                Ok(t) => Ok(Some(t)),
                Err(e) => Err(e),
            }
        } else if ch == '\u{22}' {
            Ok(Some(self.parse_string()))
        } else if ch == '@' {
            let name = self.parse_ident(self.head);
            Ok(Some(Token::Flag(name)))
        } else if ch == '$' {
            let name = self.parse_ident(self.head);
            Ok(Some(Token::Jump(name)))
        } else if ch == '?' {
            let name = self.parse_ident(self.head);
            Ok(Some(Token::OptJump(name)))
        } else if is_alphabetic_char(ch) {
            let name = self.parse_ident(self.head - 1);
            Ok(Some(Token::Keyword(name)))
        } else {
            Err(LexError::UnrecognizedChar(ch))
        }
    }

    /// Whether the character under the head is exactly `c`.
    fn peek_is(&self, c: char) -> (r: bool)
        ensures
            r == (self.head < self.text@.len() && self.text@[self.head as int] == c),
    {
        match self.peek() {
            Some(ch) => ch == c,
            None => false,
        }
    }

    /// Scan a numeric literal whose first digit sits at `start`, the head
    /// standing just past it.
    fn parse_num(&mut self, start: usize) -> (r: Result<Token, LexError>)
        requires
            old(self).head == start + 1,
            start < old(self).text@.len(),
        ensures
            final(self).text == old(self).text,
            match spec_num_token(old(self).text@, start as int) {
                Ok((tv, end)) => (match r {
                    Ok(t) => t@ == tv,
                    _ => false,
                }) && final(self).head == end,
                Err(e) => r == Err::<Token, LexError>(e),
            },
    {
        let ghost s = self.text@;
        self.take_numeric_run();
        proof {
            lemma_scan_len_in_range(s, start + 1, num_pred());
        }
        if self.peek_is('.') {
            let _ = self.bump();
            let ghost mid = self.head as int;
            self.take_numeric_run();
            proof {
                lemma_scan_len_in_range(s, mid, num_pred());
            }
            let lexeme = self.slice_chars(start, self.head);
            let text = chars_to_string(&lexeme);
            match crate::float_bits::parse_f64(text.as_str()) {
                Some(bits) => Ok(Token::Float(bits)),
                None => Err(LexError::MalformedNumber),
            }
        } else {
            let lexeme = self.slice_chars(start, self.head);
            match parse_i64_chars(&lexeme) {
                Some(v) => Ok(Token::Int(v)),
                None => Err(LexError::MalformedNumber),
            }
        }
    }

    /// Advance the head over a run of numeric characters.
    fn take_numeric_run(&mut self)
        ensures
            final(self).text == old(self).text,
            old(self).head <= old(self).text@.len() ==> final(self).head == old(self).head
                + scan_len(final(self).text@, old(self).head as int, num_pred()),
            old(self).head > old(self).text@.len() ==> final(self).head == old(self).head,
    {
        let ghost start = self.head as int;
        let ghost s = self.text@;
        let pred = (|c: char| -> (b: bool)
            ensures
                b == numeric_char(c),
            { is_numeric_char(c) });
        self.take_while(pred);
        proof {
            if start <= s.len() {
                lemma_scan_len_pin(s, start, self.head as int, num_pred());
            }
        }
    }

    /// Scan a string literal's body, the head standing just past the
    /// opening quote: everything up to the closing quote (or the end of the
    /// text), the closing quote consumed.
    fn parse_string(&mut self) -> (t: Token)
        requires
            old(self).head <= old(self).text@.len(),
        ensures
            final(self).text == old(self).text,
            ({
                let e = old(self).head + scan_len(old(self).text@, old(self).head as int,
                str_pred());
                (match t {
                    Token::Str(x) => x@ == old(self).text@.subrange(old(self).head as int, e as int),
                    _ => false,
                }) && final(self).head == (if e < old(self).text@.len() {
                    e + 1
                } else {
                    e
                })
            }),
    {
        let start = self.head;
        let ghost s = self.text@;
        let pred = (|c: char| -> (b: bool)
            ensures
                b == (c != '\u{22}'),
            { c != '\u{22}' });
        self.take_while(pred);
        proof {
            lemma_scan_len_pin(s, start as int, self.head as int, str_pred());
        }
        let lexeme = self.slice_chars(start, self.head);
        let _ = self.bump();
        Token::Str(chars_to_string(&lexeme))
    }

    /// Scan an identifier's tail (the head marking where its remaining
    /// characters start) and hand back its text from `start` on.
    pub fn parse_ident(&mut self, start: usize) -> (r: String)
        requires
            start <= old(self).head,
            old(self).head <= old(self).text@.len(),
        ensures
            final(self).text == old(self).text,
            final(self).head == old(self).head + scan_len(
                final(self).text@,
                old(self).head as int,
                ident_pred(),
            ),
            r@ == final(self).text@.subrange(start as int, final(self).head as int),
    {
        let ghost s = self.text@;
        let ghost from = self.head as int;
        let pred = (|c: char| -> (b: bool)
            ensures
                b == (alphanumeric_char(c) || c == '\u{5f}'),
            { is_alphanumeric_char(c) || c == '\u{5f}' });
        self.take_while(pred);
        proof {
            lemma_scan_len_pin(s, from, self.head as int, ident_pred());
        }
        let lexeme = self.slice_chars(start, self.head);
        chars_to_string(&lexeme)
    }
}

/// What the whole text tokenizes to from `pos` on: every token including
/// whitespace and comments, or the first tokenization error.
pub open spec fn spec_tokenize(s: Seq<char>, pos: int) -> Result<Seq<TokenV>, LexError>
    decreases s.len() - pos,
{
    match spec_next_token(s, pos) {
        None => Ok(Seq::empty()),
        Some(Err(e)) => Err(e),
        Some(Ok((t, end))) => {
            if end <= pos || end > s.len() {
                Ok(Seq::empty())
            } else {
                match spec_tokenize(s, end) {
                    Ok(rest) => Ok(seq![t] + rest),
                    Err(e) => Err(e),
                }
            }
        },
    }
}

/// Tokenize `input` in full. Whitespace and comments are real tokens and
/// are kept; [`filter_tokenize`] drops them.
pub fn tokenize(input: &str) -> (r: Result<Vec<Token>, LexError>)
    ensures
        match r {
            Ok(tokens) => spec_tokenize(input@, 0) == Ok::<Seq<TokenV>, LexError>(
                tok_views(tokens@),
            ),
            Err(e) => spec_tokenize(input@, 0) == Err::<Seq<TokenV>, LexError>(e),
        },
{
    let mut cursor = Cursor::new(input);
    let mut tokens: Vec<Token> = Vec::new();
    let ghost s = input@;
    loop
        invariant
            s == input@,
            cursor.text@ == s,
            cursor.head <= s.len(),
            match spec_tokenize(s, cursor.head as int) {
                Ok(rest) => spec_tokenize(s, 0) == Ok::<Seq<TokenV>, LexError>(
                    tok_views(tokens@) + rest,
                ),
                Err(e) => spec_tokenize(s, 0) == Err::<Seq<TokenV>, LexError>(e),
            },
        decreases s.len() - cursor.head,
    {
        let ghost pos = cursor.head as int;
        match cursor.next_token() {
            Ok(Some(t)) => {
                proof {
                    lemma_next_token_advances(s, pos);
                }
                let ghost prev_toks = tokens@;
                tokens.push(t);
                proof {
                    lemma_tok_views_push(prev_toks, tokens@.last());
                    let tv = tokens@.last()@;
                    let end = cursor.head as int;
                    if spec_tokenize(s, end) is Ok {
                        let rest = spec_tokenize(s, end)->Ok_0;
                        assert(spec_tokenize(s, pos) == Ok::<Seq<TokenV>, LexError>(
                            seq![tv] + rest,
                        ));
                        assert(tok_views(prev_toks) + (seq![tv] + rest) =~= tok_views(tokens@)
                            + rest);
                    }
                }
            },
            Ok(None) => {
                proof {
                    assert(tok_views(tokens@) + Seq::<TokenV>::empty() =~= tok_views(tokens@));
                }
                return Ok(tokens);
            },
            Err(e) => {
                return Err(e);
            },
        }
    }
}

/// A token always covers at least one character and never runs past the
/// end of the text.
pub proof fn lemma_next_token_advances(s: Seq<char>, pos: int)
    requires
        0 <= pos < s.len(),
        spec_next_token(s, pos) matches Some(r) && r is Ok,
    ensures
        ({
            let (t, end) = spec_next_token(s, pos)->Some_0->Ok_0;
            pos < end <= s.len()
        }),
{
    lemma_scan_len_in_range(s, pos + 1, ws_pred());
    lemma_scan_len_in_range(s, pos + 1, comment_pred());
    lemma_scan_len_in_range(s, pos + 1, num_pred());
    lemma_scan_len_in_range(s, pos + 1, str_pred());
    lemma_scan_len_in_range(s, pos + 1, ident_pred());
    if ascii_digit(s[pos]) {
        let e1 = pos + 1 + scan_len(s, pos + 1, num_pred());
        if e1 < s.len() && s[e1] == '.' {
            lemma_scan_len_in_range(s, e1 + 1, num_pred());
        }
    }
}

/// A scan from a position inside the text stays inside the text.
proof fn lemma_scan_len_in_range(s: Seq<char>, i: int, p: spec_fn(char) -> bool)
    requires
        0 <= i <= s.len(),
    ensures
        i + scan_len(s, i, p) <= s.len(),
    decreases s.len() - i,
{
    if i < s.len() && p(s[i]) {
        lemma_scan_len_in_range(s, i + 1, p);
    }
}

/// Whether a token is insignificant to the code generator.
pub open spec fn is_trivia(t: TokenV) -> bool {
    t is Whitespace || t is Comment
}

/// Tokenize `input` and keep only the semantic tokens: whitespace and
/// comments are dropped.
pub fn filter_tokenize(input: &str) -> (r: Result<Vec<Token>, LexError>)
    ensures
        match r {
            Ok(tokens) => spec_tokenize(input@, 0) matches Ok(all) && tok_views(tokens@)
                == all.filter(|t: TokenV| !is_trivia(t)),
            Err(e) => spec_tokenize(input@, 0) == Err::<Seq<TokenV>, LexError>(e),
        },
{
    let all = match tokenize(input) {
        Ok(all) => all,
        Err(e) => {
            return Err(e);
        },
    };
    let mut kept: Vec<Token> = Vec::new();
    let n = all.len();
    let mut i: usize = 0;
    while i < n
        invariant
            0 <= i <= n,
            n == all@.len(),
            tok_views(kept@) == tok_views(all@).take(i as int).filter(|t: TokenV| !is_trivia(t)),
        decreases n - i,

    {
        proof {
            reveal(Seq::filter);
            assert(tok_views(all@).take(i + 1).drop_last() =~= tok_views(all@).take(i as int));
            assert(tok_views(all@).take(i + 1).last() == all@[i as int]@);
        }
        let keep = match &all[i] {
            Token::Whitespace => false,
            Token::Comment => false,
            _ => true,
        };
        if keep {
            let ghost prev_kept = kept@;
            let cloned = all[i].clone();
            kept.push(cloned);
            proof {
                lemma_tok_views_push(prev_kept, kept@.last());
            }
        }
        i = i + 1;
    }
    proof {
        assert(tok_views(all@).take(n as int) =~= tok_views(all@));
    }
    Ok(kept)
}


/// A fatal compilation error; no program is produced.
#[derive(Debug)]
pub enum CompileError {
    /// Tokenization failed.
    Lex(LexError),
    /// A label was defined a second time.
    DuplicateLabel(String),
    /// A jump still referenced this label when the token stream ended.
    UnresolvedLabel(String),
    /// A keyword the code generator does not recognize.
    UnknownKeyword(String),
    /// The program outgrew its four-byte absolute offsets.
    ProgramTooLarge,
}

/// The mathematical shape of a [`CompileError`].
pub enum CompileErrorV {
    Lex(LexError),
    DuplicateLabel(Seq<char>),
    UnresolvedLabel(Seq<char>),
    UnknownKeyword(Seq<char>),
    ProgramTooLarge,
}

impl View for CompileError {
    type V = CompileErrorV;

    open spec fn view(&self) -> CompileErrorV {
        match self {
            CompileError::Lex(e) => CompileErrorV::Lex(*e),
            CompileError::DuplicateLabel(s) => CompileErrorV::DuplicateLabel(s@),
            CompileError::UnresolvedLabel(s) => CompileErrorV::UnresolvedLabel(s@),
            CompileError::UnknownKeyword(s) => CompileErrorV::UnknownKeyword(s@),
            CompileError::ProgramTooLarge => CompileErrorV::ProgramTooLarge,
        }
    }
}

/// The assembler's working state: the program being built, the table of
/// resolved label offsets, and, per still-unresolved label, the operand
/// offsets of the jumps waiting for it.
pub struct AsmV {
    pub prog: crate::program::ProgramV,
    pub labels: Seq<(Seq<char>, usize)>,
    pub pending: Seq<(Seq<char>, Seq<usize>)>,
}

/// The resolved offset of `name` in the label table, scanning from `i`.
pub open spec fn lookup_label_from(
    labels: Seq<(Seq<char>, usize)>,
    name: Seq<char>,
    i: int,
) -> Option<usize>
    decreases labels.len() - i,
{
    if i < 0 || i >= labels.len() {
        None
    } else if labels[i].0 == name {
        Some(labels[i].1)
    } else {
        lookup_label_from(labels, name, i + 1)
    }
}

/// The resolved offset of `name`, if the label is defined.
pub open spec fn lookup_label(labels: Seq<(Seq<char>, usize)>, name: Seq<char>) -> Option<usize> {
    lookup_label_from(labels, name, 0)
}

/// The position of `name`'s entry in the pending table, scanning from `i`;
/// the table's length when there is none.
pub open spec fn pending_idx_from(
    pending: Seq<(Seq<char>, Seq<usize>)>,
    name: Seq<char>,
    i: int,
) -> int
    decreases pending.len() - i,
{
    if i < 0 || i >= pending.len() {
        pending.len() as int
    } else if pending[i].0 == name {
        i
    } else {
        pending_idx_from(pending, name, i + 1)
    }
}

/// The position of `name`'s entry in the pending table, or its length.
pub open spec fn pending_idx(pending: Seq<(Seq<char>, Seq<usize>)>, name: Seq<char>) -> int {
    pending_idx_from(pending, name, 0)
}

/// The pending table with `site` recorded under `name`: appended to the
/// existing entry, or as a fresh entry at the end.
pub open spec fn pending_add(
    pending: Seq<(Seq<char>, Seq<usize>)>,
    name: Seq<char>,
    site: usize,
) -> Seq<(Seq<char>, Seq<usize>)> {
    let i = pending_idx(pending, name);
    if i < pending.len() {
        pending.update(i, (name, pending[i].1.push(site)))
    } else {
        pending.push((name, seq![site]))
    }
}

/// `b` with every operand offset in `sites` patched, in order, to `b`'s
/// length (which patching preserves).
pub open spec fn patch_all(b: Seq<u8>, sites: Seq<usize>) -> Seq<u8>
    decreases sites.len(),
{
    if sites.len() == 0 {
        b
    } else {
        patch_all(crate::program::patched(b, sites[0] as int), sites.drop_first())
    }
}

/// The byte stream of the preamble every compiled program starts with: a
/// jump over the built-in bodies, then the body of `print` (which discards
/// its argument and returns; the machine itself performs no output).
pub open spec fn preamble_bytes() -> Seq<u8> {
    crate::program::patched(
        (Seq::<u8>::empty().push(OpCode::Jump.spec_byte()) + vstd::bytes::spec_u32_to_le_bytes(
            0u32,
        )).push(OpCode::Pop.spec_byte()).push(OpCode::Ret.spec_byte()),
        1,
    )
}

/// The assembler's starting state: the preamble emitted, both pools and
/// both label tables empty.
pub open spec fn spec_asm_init() -> AsmV {
    AsmV {
        prog: crate::program::ProgramV {
            bytes: preamble_bytes(),
            constants: Seq::empty(),
            idents: Seq::empty(),
        },
        labels: Seq::empty(),
        pending: Seq::empty(),
    }
}

/// The state after emitting one zero-operand opcode.
pub open spec fn asm_emit_op(st: AsmV, op: OpCode) -> AsmV {
    AsmV {
        prog: crate::program::ProgramV {
            bytes: st.prog.bytes.push(op.spec_byte()),
            ..st.prog
        },
        ..st
    }
}

/// The state after emitting a `LoadConst` of `v`, deduplicated into the
/// constant pool.
pub open spec fn asm_emit_const(st: AsmV, v: ValueV) -> AsmV {
    let (pool, idx) = crate::program::val_pool_insert(st.prog.constants, v);
    AsmV {
        prog: crate::program::ProgramV {
            bytes: st.prog.bytes.push(OpCode::LoadConst.spec_byte())
                + vstd::bytes::spec_u32_to_le_bytes(idx as u32),
            constants: pool,
            ..st.prog
        },
        ..st
    }
}

/// The state after emitting a jump-family instruction referencing `name`:
/// with the final offset when the label is already resolved, otherwise with
/// a placeholder offset of zero and the operand recorded as pending.
pub open spec fn asm_emit_jump(st: AsmV, name: Seq<char>, op: OpCode) -> AsmV {
    match lookup_label(st.labels, name) {
        Some(loc) => AsmV {
            prog: crate::program::ProgramV {
                bytes: st.prog.bytes.push(op.spec_byte()) + vstd::bytes::spec_u32_to_le_bytes(
                    loc as u32,
                ),
                ..st.prog
            },
            ..st
        },
        None => AsmV {
            prog: crate::program::ProgramV {
                bytes: st.prog.bytes.push(op.spec_byte()) + vstd::bytes::spec_u32_to_le_bytes(
                    0u32,
                ),
                ..st.prog
            },
            pending: pending_add(st.pending, name, (st.prog.bytes.len() + 1) as usize),
            ..st
        },
    }
}

/// The state after defining a label here: its offset recorded, and every
/// jump operand waiting for it patched to this offset and cleared from the
/// pending table.
pub open spec fn asm_define_label(st: AsmV, name: Seq<char>) -> AsmV {
    let off = st.prog.bytes.len() as usize;
    let labels = st.labels.push((name, off));
    let i = pending_idx(st.pending, name);
    if i < st.pending.len() {
        AsmV {
            prog: crate::program::ProgramV {
                bytes: patch_all(st.prog.bytes, st.pending[i].1),
                ..st.prog
            },
            labels,
            pending: st.pending.remove(i),
        }
    } else {
        AsmV { labels, ..st }
    }
}

/// The state after emitting a call to the body at `entry`.
pub open spec fn asm_emit_call(st: AsmV, entry: usize) -> AsmV {
    AsmV {
        prog: crate::program::ProgramV {
            bytes: st.prog.bytes.push(OpCode::PrepareFuncCall.spec_byte()).push(
                OpCode::Jump.spec_byte(),
            ) + vstd::bytes::spec_u32_to_le_bytes(entry as u32),
            ..st.prog
        },
        ..st
    }
}

/// What one token does to the assembler's state. A program that has
/// outgrown [`crate::program::CODE_LIMIT`] is refused before anything else;
/// whitespace, comments and the end marker emit nothing; operators,
/// literals, jumps and label definitions emit as their helpers above say;
/// the five stack keywords emit their opcode, `print` emits a call to the
/// preamble body, and any other keyword is an error.
pub open spec fn spec_step_token(st: AsmV, t: TokenV) -> Result<AsmV, CompileErrorV> {
    if st.prog.bytes.len() > crate::program::CODE_LIMIT {
        Err(CompileErrorV::ProgramTooLarge)
    } else {
        match t {
            TokenV::Whitespace | TokenV::Comment | TokenV::End => Ok(st),
            TokenV::Add => Ok(asm_emit_op(st, OpCode::Add)),
            TokenV::Sub => Ok(asm_emit_op(st, OpCode::Sub)),
            TokenV::Mul => Ok(asm_emit_op(st, OpCode::Mul)),
            TokenV::Div => Ok(asm_emit_op(st, OpCode::Div)),
            TokenV::Le => Ok(asm_emit_op(st, OpCode::Le)),
            TokenV::Lt => Ok(asm_emit_op(st, OpCode::Lt)),
            TokenV::Ge => Ok(asm_emit_op(st, OpCode::Ge)),
            TokenV::Gt => Ok(asm_emit_op(st, OpCode::Gt)),
            TokenV::Eq => Ok(asm_emit_op(st, OpCode::Eq)),
            TokenV::Not => Ok(asm_emit_op(st, OpCode::UnaryNot)),
            TokenV::Int(i) => Ok(asm_emit_const(st, ValueV::Int(i))),
            TokenV::Float(bits) => Ok(asm_emit_const(st, ValueV::Float(bits))),
            TokenV::Str(text) => Ok(asm_emit_const(st, ValueV::Str(text))),
            TokenV::Jump(name) => Ok(asm_emit_jump(st, name, OpCode::Jump)),
            TokenV::OptJump(name) => Ok(asm_emit_jump(st, name, OpCode::PopJumpIfFalse)),
            TokenV::Flag(name) => {
                if lookup_label(st.labels, name) is Some {
                    Err(CompileErrorV::DuplicateLabel(name))
                } else {
                    Ok(asm_define_label(st, name))
                }
            },
            TokenV::Keyword(k) => {
                if k == "ret"@ {
                    Ok(asm_emit_op(st, OpCode::Ret))
                } else if k == "pop"@ {
                    Ok(asm_emit_op(st, OpCode::Pop))
                } else if k == "swap"@ {
                    Ok(asm_emit_op(st, OpCode::Swap))
                } else if k == "dup"@ {
                    Ok(asm_emit_op(st, OpCode::Dup))
                } else if k == "dup_swap"@ {
                    Ok(asm_emit_op(st, OpCode::DupSwap))
                } else if k == "print"@ {
                    Ok(asm_emit_call(st, crate::builtins::PRINT_ENTRY))
                } else {
                    Err(CompileErrorV::UnknownKeyword(k))
                }
            },
        }
    }
}

/// The assembler's state after the tokens from `i` on, or the first error.
pub open spec fn spec_compile_from(ts: Seq<TokenV>, i: int, st: AsmV) -> Result<
    AsmV,
    CompileErrorV,
>
    decreases ts.len() - i,
{
    if i < 0 || i >= ts.len() {
        Ok(st)
    } else {
        match spec_step_token(st, ts[i]) {
            Ok(st2) => spec_compile_from(ts, i + 1, st2),
            Err(e) => Err(e),
        }
    }
}

/// What compiling a token stream yields: the preamble, then every token's
/// emission in order, and at the end of the stream an unresolved-label
/// error if any jump operand is still waiting (naming the label whose first
/// unresolved reference came earliest).
pub open spec fn spec_compile(ts: Seq<TokenV>) -> Result<crate::program::ProgramV, CompileErrorV> {
    match spec_compile_from(ts, 0, spec_asm_init()) {
        Err(e) => Err(e),
        Ok(st) => {
            if st.pending.len() > 0 {
                Err(CompileErrorV::UnresolvedLabel(st.pending[0].0))
            } else {
                Ok(st.prog)
            }
        },
    }
}

/// The views of the label table.
pub open spec fn label_views(v: Seq<(String, usize)>) -> Seq<(Seq<char>, usize)> {
    v.map_values(|e: (String, usize)| (e.0@, e.1))
}

/// The views of the pending table.
pub open spec fn pending_views(v: Seq<(String, Vec<usize>)>) -> Seq<(Seq<char>, Seq<usize>)> {
    v.map_values(|e: (String, Vec<usize>)| (e.0@, e.1@))
}

/// The resolved offset of `name`, or `None`; see [`lookup_label`].
fn find_label(labels: &Vec<(String, usize)>, name: &String) -> (r: Option<usize>)
    ensures
        r == lookup_label(label_views(labels@), name@),
        r matches Some(loc) ==> exists|j: int|
            0 <= j < label_views(labels@).len() && (#[trigger] label_views(labels@)[j]).1 == loc,
{
    let ghost lv = label_views(labels@);
    let n = labels.len();
    let mut i: usize = 0;
    while i < n
        invariant
            0 <= i <= n,
            n == labels@.len(),
            lv == label_views(labels@),
            lv.len() == n,
            forall|j: int| 0 <= j < n ==> #[trigger] lv[j] == (labels@[j].0@, labels@[j].1),
            lookup_label_from(lv, name@, 0) == lookup_label_from(lv, name@, i as int),
        decreases n - i,
    {
        let entry = &labels[i];
        if crate::value::str_eq_chars(entry.0.as_str(), name.as_str()) {
            return Some(entry.1);
        }
        i = i + 1;
    }
    None
}

/// The position of `name`'s entry in the pending table, or its length;
/// see [`pending_idx`].
fn find_pending(pending: &Vec<(String, Vec<usize>)>, name: &String) -> (r: usize)
    ensures
        r as int == pending_idx(pending_views(pending@), name@),
        r <= pending@.len(),
        r < pending@.len() ==> pending_views(pending@)[r as int].0 == name@,
{
    let ghost pv = pending_views(pending@);
    let n = pending.len();
    let mut i: usize = 0;
    while i < n
        invariant
            0 <= i <= n,
            n == pending@.len(),
            pv == pending_views(pending@),
            pv.len() == n,
            forall|j: int| 0 <= j < n ==> #[trigger] pv[j] == (pending@[j].0@, pending@[j].1@),
            pending_idx_from(pv, name@, 0) == pending_idx_from(pv, name@, i as int),
        decreases n - i,
    {
        let entry = &pending[i];
        if crate::value::str_eq_chars(entry.0.as_str(), name.as_str()) {
            return i;
        }
        i = i + 1;
    }
    n
}


/// Patching one more site is patching the rest after patching the first of
/// them: `patch_all` applied to one more site from the left.
proof fn lemma_patch_all_snoc(b: Seq<u8>, sites: Seq<usize>, k: int)
    requires
        0 <= k < sites.len(),
    ensures
        patch_all(b, sites.take(k + 1)) == patched(patch_all(b, sites.take(k)), sites[k] as int),
    decreases k,
{
    if k == 0 {
        assert(sites.take(0) =~= Seq::<usize>::empty());
        assert(patch_all(b, sites.take(0)) == b);
        assert(sites.take(1).drop_first() =~= Seq::<usize>::empty());
        assert(sites.take(1)[0] == sites[0]);
        assert(patch_all(patched(b, sites[0] as int), sites.take(1).drop_first()) == patched(
            b,
            sites[0] as int,
        ));
    } else {
        let b2 = patched(b, sites[0] as int);
        let rest = sites.drop_first();
        assert(sites.take(k + 1).drop_first() =~= rest.take(k));
        assert(sites.take(k).drop_first() =~= rest.take(k - 1));
        assert(sites.take(k + 1)[0] == sites[0]);
        assert(sites.take(k)[0] == sites[0]);
        lemma_patch_all_snoc(b2, rest, k - 1);
        assert(rest.take(k)[k - 1] == sites[k]);
    }
}

/// Emit a jump-family instruction referencing `name`, recording its operand
/// as pending when the label is not yet defined; see [`asm_emit_jump`].
fn emit_jump_token(
    program: &mut Program,
    pending: &mut Vec<(String, Vec<usize>)>,
    labels: &Vec<(String, usize)>,
    name: &String,
    conditional: bool,
)
    requires
        forall|j: int|
            0 <= j < label_views(labels@).len() ==> (#[trigger] label_views(labels@)[j]).1
                <= CODE_LIMIT,
        forall|a: int, b: int|
            0 <= a < pending_views(old(pending)@).len() && 0 <= b < pending_views(old(pending)@)[a].1.len()
                ==> (#[trigger] pending_views(old(pending)@)[a].1[b]) + 4
                <= old(program)@.bytes.len(),
    ensures
        forall|a: int, b: int|
            0 <= a < pending_views(final(pending)@).len() && 0 <= b
                < pending_views(final(pending)@)[a].1.len() ==> (#[trigger] pending_views(
                final(pending)@,
            )[a].1[b]) + 4 <= final(program)@.bytes.len(),
        ({
            let st = AsmV {
                prog: old(program)@,
                labels: label_views(labels@),
                pending: pending_views(old(pending)@),
            };
            let st2 = asm_emit_jump(
                st,
                name@,
                if conditional {
                    OpCode::PopJumpIfFalse
                } else {
                    OpCode::Jump
                },
            );
            final(program)@ == st2.prog && pending_views(final(pending)@) == st2.pending
        }),
        final(program)@.bytes.len() == old(program)@.bytes.len() + 5,
{
    let ghost pv = pending_views(pending@);
    let op_loc = find_label(labels, name);
    match op_loc {
        Some(loc) => {
            let _ = if conditional {
                program.push_pop_jump_if_false(loc)
            } else {
                program.push_jump(loc)
            };
        },
        None => {
            let site = if conditional {
                program.push_pop_jump_if_false(0)
            } else {
                program.push_jump(0)
            };
            let idx = find_pending(pending, name);
            if idx < pending.len() {
                let mut entry = pending.remove(idx);
                entry.1.push(site);
                pending.insert(idx, entry);
                proof {
                    assert(pending_views(pending@) =~= pending_add(pv, name@, site));
                }
            } else {
                let mut sites: Vec<usize> = Vec::new();
                sites.push(site);
                pending.push((name.clone(), sites));
                proof {
                    assert(sites@ =~= seq![site]);
                    assert(pending_views(pending@) =~= pending_add(pv, name@, site));
                }
            }
        },
    }
}

/// Define `name` here: record the current length as its offset and patch
/// every jump operand waiting for it; see [`asm_define_label`].
fn define_label_token(
    program: &mut Program,
    pending: &mut Vec<(String, Vec<usize>)>,
    labels: &mut Vec<(String, usize)>,
    name: &String,
)
    requires
        old(program)@.bytes.len() <= CODE_LIMIT,
        forall|a: int, b: int|
            0 <= a < pending_views(old(pending)@).len() && 0 <= b < pending_views(old(pending)@)[a].1.len()
                ==> (#[trigger] pending_views(old(pending)@)[a].1[b]) + 4
                <= old(program)@.bytes.len(),
    ensures
        ({
            let st = AsmV {
                prog: old(program)@,
                labels: label_views(old(labels)@),
                pending: pending_views(old(pending)@),
            };
            let st2 = asm_define_label(st, name@);
            final(program)@ == st2.prog && label_views(final(labels)@) == st2.labels
                && pending_views(final(pending)@) == st2.pending
        }),
        final(program)@.bytes.len() == old(program)@.bytes.len(),
        forall|a: int, b: int|
            0 <= a < pending_views(final(pending)@).len() && 0 <= b
                < pending_views(final(pending)@)[a].1.len() ==> (#[trigger] pending_views(
                final(pending)@,
            )[a].1[b]) + 4 <= final(program)@.bytes.len(),
{
    let ghost st = AsmV {
        prog: program@,
        labels: label_views(labels@),
        pending: pending_views(pending@),
    };
    let off = program.len();
    labels.push((name.clone(), off));
    proof {
        assert(label_views(labels@) =~= st.labels.push((name@, off)));
    }
    let idx = find_pending(pending, name);
    if idx < pending.len() {
        let ghost bytes0 = program@.bytes;
        let ghost sites_v = pending_views(pending@)[idx as int].1;
        let entry = &pending[idx];
        let m = entry.1.len();
        let mut k: usize = 0;
        proof {
            assert(entry.1@ == sites_v);
            assert(patch_all(bytes0, sites_v.take(0)) == bytes0) by {
                assert(sites_v.take(0) =~= Seq::<usize>::empty());
            }
        }
        while k < m
            invariant
                0 <= k <= m,
                m == sites_v.len(),
                pending@.len() > idx,
                pending@[idx as int].1@ == sites_v,
                forall|b: int| 0 <= b < sites_v.len() ==> (#[trigger] sites_v[b]) + 4 <= bytes0.len(),
                bytes0.len() <= CODE_LIMIT,
                program@.bytes == patch_all(bytes0, sites_v.take(k as int)),
                program@.bytes.len() == bytes0.len(),
                program@.constants == st.prog.constants,
                program@.idents == st.prog.idents,
            decreases m - k,
        {
            let entry = &pending[idx];
            let site = entry.1[k];
            program.patch_jump(site);
            proof {
                lemma_patch_all_snoc(bytes0, sites_v, k as int);
            }
            k = k + 1;
        }
        proof {
            assert(sites_v.take(m as int) =~= sites_v);
        }
        let _ = pending.remove(idx);
        proof {
            assert(pending_views(pending@) =~= pending_views(old(pending)@).remove(idx as int));
        }
    }
}

/// Compile a token stream into a program; see [`spec_compile`]. One pass:
/// each token is translated as it arrives, jumps to labels not yet defined
/// are emitted with a placeholder operand and backpatched the moment the
/// label is defined, and a stream that ends with a label still pending, or
/// that defines a label twice, or that holds a keyword the generator does
/// not know, is refused.
pub fn compile_tokens(tokens: &Vec<Token>) -> (r: Result<Program, CompileError>)
    ensures
        match spec_compile(tok_views(tokens@)) {
            Ok(pv) => (match r {
                Ok(p) => p@ == pv,
                _ => false,
            }),
            Err(ev) => (match r {
                Err(e) => e@ == ev,
                _ => false,
            }),
        },
{
    let ghost ts = tok_views(tokens@);
    let mut program = Program::new();
    proof {
        vstd::bytes::lemma_auto_spec_u32_to_from_le_bytes();
    }
    let (skip, _entry) = program.begin_func();
    program.push_opcode(OpCode::Pop);
    program.end_func(skip);
    let mut labels: Vec<(String, usize)> = Vec::new();
    let mut pending: Vec<(String, Vec<usize>)> = Vec::new();
    proof {
        vstd::bytes::lemma_auto_spec_u32_to_from_le_bytes();
        assert(program@.bytes =~= preamble_bytes());
        assert(label_views(labels@) =~= Seq::<(Seq<char>, usize)>::empty());
        assert(pending_views(pending@) =~= Seq::<(Seq<char>, Seq<usize>)>::empty());
        assert(AsmV { prog: program@, labels: label_views(labels@), pending: pending_views(pending@) }
            == spec_asm_init());
    }
    let n = tokens.len();
    let mut i: usize = 0;
    while i < n
        invariant
            0 <= i <= n,
            n == tokens@.len(),
            ts == tok_views(tokens@),
            ts.len() == n,
            forall|j: int| 0 <= j < n ==> #[trigger] ts[j] == tokens@[j]@,
            spec_compile_from(ts, 0, spec_asm_init()) == spec_compile_from(
                ts,
                i as int,
                AsmV {
                    prog: program@,
                    labels: label_views(labels@),
                    pending: pending_views(pending@),
                },
            ),
            program@.idents.len() == 0,
            program@.constants.len() * 5 <= program@.bytes.len(),
            program@.bytes.len() <= crate::program::CODE_LIMIT + 6,
            forall|a: int, b: int|
                0 <= a < pending_views(pending@).len() && 0 <= b < pending_views(pending@)[a].1.len()
                    ==> (#[trigger] pending_views(pending@)[a].1[b]) + 4 <= program@.bytes.len(),
            forall|j: int|
                0 <= j < label_views(labels@).len() ==> (#[trigger] label_views(labels@)[j]).1
                    <= crate::program::CODE_LIMIT,
        decreases n - i,
    {
        proof {
            vstd::bytes::lemma_auto_spec_u32_to_from_le_bytes();
        }
        let ghost st = AsmV {
            prog: program@,
            labels: label_views(labels@),
            pending: pending_views(pending@),
        };
        if program.len() > crate::program::CODE_LIMIT {
            return Err(CompileError::ProgramTooLarge);
        }
        match &tokens[i] {
            Token::Whitespace | Token::Comment | Token::End => {},
            Token::Add => program.push_opcode(OpCode::Add),
            Token::Sub => program.push_opcode(OpCode::Sub),
            Token::Mul => program.push_opcode(OpCode::Mul),
            Token::Div => program.push_opcode(OpCode::Div),
            Token::Le => program.push_opcode(OpCode::Le),
            Token::Lt => program.push_opcode(OpCode::Lt),
            Token::Ge => program.push_opcode(OpCode::Ge),
            Token::Gt => program.push_opcode(OpCode::Gt),
            Token::Eq => program.push_opcode(OpCode::Eq),
            Token::Not => program.push_opcode(OpCode::UnaryNot),
            Token::Int(v) => {
                let _ = program.push_literal(crate::value::Value::Int(*v));
            },
            Token::Float(bits) => {
                let _ = program.push_literal(crate::value::Value::Float(*bits));
            },
            Token::Str(text) => {
                let _ = program.push_literal(crate::value::Value::Str(text.clone()));
            },
            Token::Jump(name) => {
                emit_jump_token(&mut program, &mut pending, &labels, name, false);
            },
            Token::OptJump(name) => {
                emit_jump_token(&mut program, &mut pending, &labels, name, true);
            },
            Token::Flag(name) => {
                if find_label(&labels, name).is_some() {
                    return Err(CompileError::DuplicateLabel(name.clone()));
                }
                define_label_token(&mut program, &mut pending, &mut labels, name);
            },
            Token::Keyword(k) => {
                if crate::value::str_eq_chars(k.as_str(), "ret") {
                    program.push_opcode(OpCode::Ret);
                } else if crate::value::str_eq_chars(k.as_str(), "pop") {
                    program.push_opcode(OpCode::Pop);
                } else if crate::value::str_eq_chars(k.as_str(), "swap") {
                    program.push_opcode(OpCode::Swap);
                } else if crate::value::str_eq_chars(k.as_str(), "dup") {
                    program.push_opcode(OpCode::Dup);
                } else if crate::value::str_eq_chars(k.as_str(), "dup_swap") {
                    program.push_opcode(OpCode::DupSwap);
                } else if crate::value::str_eq_chars(k.as_str(), "print") {
                    program.call_func(crate::builtins::PRINT_ENTRY);
                } else {
                    return Err(CompileError::UnknownKeyword(k.clone()));
                }
            },
        }
        proof {
            let st2 = AsmV {
                prog: program@,
                labels: label_views(labels@),
                pending: pending_views(pending@),
            };
            assert(spec_step_token(st, ts[i as int]) == Ok::<AsmV, CompileErrorV>(st2));
        }
        i = i + 1;
    }
    if pending.len() > 0 {
        let entry = &pending[0];
        return Err(CompileError::UnresolvedLabel(entry.0.clone()));
    }
    Ok(program)
}


/// Compile source text: tokenize it and translate the token stream, as
/// [`spec_tokenize`] and [`spec_compile`] describe.
pub fn compile_str(input: &str) -> (r: Result<Program, CompileError>)
    ensures
        match spec_tokenize(input@, 0) {
            Err(le) => (match r {
                Err(e) => e@ == CompileErrorV::Lex(le),
                _ => false,
            }),
            Ok(ts) => match spec_compile(ts) {
                Ok(pv) => (match r {
                    Ok(p) => p@ == pv,
                    _ => false,
                }),
                Err(ev) => (match r {
                    Err(e) => e@ == ev,
                    _ => false,
                }),
            },
        },
{
    let tokens = match tokenize(input) {
        Ok(tokens) => tokens,
        Err(e) => {
            return Err(CompileError::Lex(e));
        },
    };
    compile_tokens(&tokens)
}


/// Whether some pending-table entry is keyed by `name`.
pub open spec fn has_pending(pending: Seq<(Seq<char>, Seq<usize>)>, name: Seq<char>) -> bool {
    exists|a: int| 0 <= a < pending.len() && (#[trigger] pending[a]).0 == name
}

/// Appending a label entry leaves earlier lookups alone and resolves the
/// appended name last.
proof fn lemma_lookup_push(
    labels: Seq<(Seq<char>, usize)>,
    x: (Seq<char>, usize),
    name: Seq<char>,
    i: int,
)
    requires
        0 <= i <= labels.len(),
    ensures
        lookup_label_from(labels.push(x), name, i) == (if lookup_label_from(
            labels,
            name,
            i,
        ) is Some {
            lookup_label_from(labels, name, i)
        } else if x.0 == name {
            Some(x.1)
        } else {
            None::<usize>
        }),
    decreases labels.len() - i,
{
    if i < labels.len() {
        assert(labels.push(x)[i] == labels[i]);
        lemma_lookup_push(labels, x, name, i + 1);
    } else {
        assert(labels.push(x)[i] == x);
        assert(lookup_label_from(labels.push(x), name, i + 1) == None::<usize>);
    }
}

/// What one token does to the label table: a label definition appends its
/// entry, everything else leaves the table alone.
proof fn lemma_step_labels(st: AsmV, t: TokenV, st2: AsmV)
    requires
        spec_step_token(st, t) == Ok::<AsmV, CompileErrorV>(st2),
    ensures
        match t {
            TokenV::Flag(n) => st2.labels == st.labels.push(
                (n, st.prog.bytes.len() as usize),
            ),
            _ => st2.labels == st.labels,
        },
{
}

/// The pending index points at an entry with the probed name, and is under
/// the table's length exactly when such an entry exists at or after `i`.
proof fn lemma_pending_idx_char(pending: Seq<(Seq<char>, Seq<usize>)>, name: Seq<char>, i: int)
    requires
        0 <= i <= pending.len(),
    ensures
        pending_idx_from(pending, name, i) < pending.len() ==> i <= pending_idx_from(
            pending,
            name,
            i,
        ) && pending[pending_idx_from(pending, name, i)].0 == name,
        (exists|a: int| i <= a < pending.len() && (#[trigger] pending[a]).0 == name)
            <==> pending_idx_from(pending, name, i) < pending.len(),
    decreases pending.len() - i,
{
    if i < pending.len() && pending[i].0 != name {
        lemma_pending_idx_char(pending, name, i + 1);
    }
}

/// A step by any token other than `name`'s own definition keeps an entry
/// for `name` in the pending table.
proof fn lemma_step_keeps_pending(st: AsmV, t: TokenV, st2: AsmV, name: Seq<char>)
    requires
        spec_step_token(st, t) == Ok::<AsmV, CompileErrorV>(st2),
        t != TokenV::Flag(name),
        has_pending(st.pending, name),
    ensures
        has_pending(st2.pending, name),
{
    let a = choose|a: int| 0 <= a < st.pending.len() && (#[trigger] st.pending[a]).0 == name;
    match t {
        TokenV::Jump(n) | TokenV::OptJump(n) => {
            match lookup_label(st.labels, n) {
                Some(_) => {
                    assert(st2.pending == st.pending);
                    assert(st2.pending[a].0 == name);
                },
                None => {
                    lemma_pending_idx_char(st.pending, n, 0);
                    let i = pending_idx(st.pending, n);
                    if i < st.pending.len() {
                        if st.pending[i].0 == name {
                            assert(st2.pending[i].0 == name);
                        } else {
                            assert(st2.pending[a].0 == name);
                        }
                    } else {
                        assert(st2.pending[a].0 == name);
                    }
                },
            }
        },
        TokenV::Flag(n) => {
            lemma_pending_idx_char(st.pending, n, 0);
            let i = pending_idx(st.pending, n);
            if i < st.pending.len() {
                assert(n != name);
                assert(st.pending[i].0 == n);
                assert(a != i);
                if a < i {
                    assert(st2.pending[a].0 == name);
                } else {
                    assert(st2.pending[a - 1] == st.pending[a]);
                    assert(st2.pending[a - 1].0 == name);
                }
            } else {
                assert(st2.pending == st.pending);
                assert(st2.pending[a].0 == name);
            }
        },
        _ => {
            assert(st2.pending == st.pending);
            assert(st2.pending[a].0 == name);
        },
    }
}

/// An entry for `name` survives to the end of a stream that never defines
/// `name`.
proof fn lemma_pending_to_end(ts: Seq<TokenV>, k: int, st: AsmV, name: Seq<char>)
    requires
        0 <= k <= ts.len(),
        has_pending(st.pending, name),
        forall|m: int| k <= m < ts.len() ==> ts[m] != TokenV::Flag(name),
    ensures
        spec_compile_from(ts, k, st) matches Ok(st2) ==> has_pending(st2.pending, name),
    decreases ts.len() - k,
{
    if k < ts.len() {
        match spec_step_token(st, ts[k]) {
            Ok(st2) => {
                lemma_step_keeps_pending(st, ts[k], st2, name);
                lemma_pending_to_end(ts, k + 1, st2, name);
            },
            Err(_) => {},
        }
    }
}

/// A step by any token keeps an undefined label undefined, unless it is
/// that label's own definition.
proof fn lemma_step_keeps_undefined(st: AsmV, t: TokenV, st2: AsmV, name: Seq<char>)
    requires
        spec_step_token(st, t) == Ok::<AsmV, CompileErrorV>(st2),
        t != TokenV::Flag(name),
        lookup_label(st.labels, name) is None,
    ensures
        lookup_label(st2.labels, name) is None,
{
    lemma_step_labels(st, t, st2);
    match t {
        TokenV::Flag(n) => {
            lemma_lookup_push(st.labels, (n, st.prog.bytes.len() as usize), name, 0);
        },
        _ => {},
    }
}

/// A jump referencing a label that is undefined and stays undefined leaves
/// an entry for it in the pending table at the end of the stream.
proof fn lemma_jump_creates_pending(
    ts: Seq<TokenV>,
    k: int,
    st: AsmV,
    jm: int,
    name: Seq<char>,
)
    requires
        0 <= k <= jm < ts.len(),
        ts[jm] == TokenV::Jump(name) || ts[jm] == TokenV::OptJump(name),
        lookup_label(st.labels, name) is None,
        forall|m: int| k <= m < ts.len() ==> ts[m] != TokenV::Flag(name),
    ensures
        spec_compile_from(ts, k, st) matches Ok(st2) ==> has_pending(st2.pending, name),
    decreases jm - k,
{
    match spec_step_token(st, ts[k]) {
        Err(_) => {},
        Ok(st2) => {
            if k == jm {
                lemma_pending_idx_char(st.pending, name, 0);
                let i = pending_idx(st.pending, name);
                if i < st.pending.len() {
                    assert(st2.pending[i].0 == name);
                } else {
                    assert(st2.pending[st.pending.len() as int].0 == name);
                }
                assert(has_pending(st2.pending, name));
                lemma_pending_to_end(ts, k + 1, st2, name);
            } else {
                lemma_step_keeps_undefined(st, ts[k], st2, name);
                lemma_jump_creates_pending(ts, k + 1, st2, jm, name);
            }
        },
    }
}

/// A label that is already resolved makes any later definition of it fail.
proof fn lemma_flagged_again_errs(ts: Seq<TokenV>, k: int, st: AsmV, j: int, name: Seq<char>)
    requires
        0 <= k <= j < ts.len(),
        ts[j] == TokenV::Flag(name),
        lookup_label(st.labels, name) is Some,
    ensures
        spec_compile_from(ts, k, st) is Err,
    decreases j - k,
{
    match spec_step_token(st, ts[k]) {
        Err(_) => {},
        Ok(st2) => {
            assert(k != j);
            lemma_step_labels(st, ts[k], st2);
            match ts[k] {
                TokenV::Flag(n) => {
                    lemma_lookup_push(st.labels, (n, st.prog.bytes.len() as usize), name, 0);
                },
                _ => {},
            }
            lemma_flagged_again_errs(ts, k + 1, st2, j, name);
        },
    }
}

/// Walk to the first of two definitions of the same label, then fail at the
/// second.
proof fn lemma_dup_from(ts: Seq<TokenV>, k: int, st: AsmV, i: int, j: int, name: Seq<char>)
    requires
        0 <= k <= i < j < ts.len(),
        ts[i] == TokenV::Flag(name),
        ts[j] == TokenV::Flag(name),
    ensures
        spec_compile_from(ts, k, st) is Err,
    decreases i - k,
{
    match spec_step_token(st, ts[k]) {
        Err(_) => {},
        Ok(st2) => {
            if k == i {
                lemma_step_labels(st, ts[k], st2);
                lemma_lookup_push(st.labels, (name, st.prog.bytes.len() as usize), name, 0);
                lemma_flagged_again_errs(ts, k + 1, st2, j, name);
            } else {
                lemma_dup_from(ts, k + 1, st2, i, j, name);
            }
        },
    }
}

/// Defining the same label twice is a compile-time error: any token stream
/// holding two definitions of one label is refused.
pub proof fn lemma_duplicate_label_rejected(ts: Seq<TokenV>, i: int, j: int, name: Seq<char>)
    requires
        0 <= i < j < ts.len(),
        ts[i] == TokenV::Flag(name),
        ts[j] == TokenV::Flag(name),
    ensures
        spec_compile(ts) is Err,
{
    lemma_dup_from(ts, 0, spec_asm_init(), i, j, name);
}

/// Referencing a label that the stream never defines is a compile-time
/// error: a jump to an undefined label is still pending at the end of the
/// stream, and the assembler refuses to finish with anything pending.
pub proof fn lemma_unresolved_label_rejected(ts: Seq<TokenV>, jm: int, name: Seq<char>)
    requires
        0 <= jm < ts.len(),
        ts[jm] == TokenV::Jump(name) || ts[jm] == TokenV::OptJump(name),
        forall|m: int| 0 <= m < ts.len() ==> ts[m] != TokenV::Flag(name),
    ensures
        spec_compile(ts) is Err,
{
    lemma_jump_creates_pending(ts, 0, spec_asm_init(), jm, name);
    match spec_compile_from(ts, 0, spec_asm_init()) {
        Ok(st) => {
            assert(has_pending(st.pending, name));
        },
        Err(_) => {},
    }
}

/// Patching leaves the buffer's length alone.
proof fn lemma_patch_all_len(b: Seq<u8>, sites: Seq<usize>)
    requires
        forall|a: int| 0 <= a < sites.len() ==> (#[trigger] sites[a]) + 4 <= b.len(),
    ensures
        patch_all(b, sites).len() == b.len(),
    decreases sites.len(),
{
    vstd::bytes::lemma_auto_spec_u32_to_from_le_bytes();
    if sites.len() > 0 {
        let b2 = patched(b, sites[0] as int);
        assert(b2.len() == b.len());
        assert forall|a: int| 0 <= a < sites.drop_first().len() implies (#[trigger] sites.drop_first()[a])
            + 4 <= b2.len() by {
            assert(sites.drop_first()[a] == sites[a + 1]);
        }
        lemma_patch_all_len(b2, sites.drop_first());
    }
}

/// Patching writes nothing outside the patched operands.
proof fn lemma_patch_all_frame(b: Seq<u8>, sites: Seq<usize>, o: int)
    requires
        forall|a: int| 0 <= a < sites.len() ==> (#[trigger] sites[a]) + 4 <= b.len(),
        0 <= o < b.len(),
        forall|a: int| 0 <= a < sites.len() ==> o < (#[trigger] sites[a]) || sites[a] + 4 <= o,
    ensures
        patch_all(b, sites)[o] == b[o],
    decreases sites.len(),
{
    vstd::bytes::lemma_auto_spec_u32_to_from_le_bytes();
    if sites.len() > 0 {
        let b2 = patched(b, sites[0] as int);
        assert(b2.len() == b.len());
        assert(b2[o] == b[o]);
        assert forall|a: int| 0 <= a < sites.drop_first().len() implies (#[trigger] sites.drop_first()[a])
            + 4 <= b2.len() && (o < sites.drop_first()[a] || sites.drop_first()[a] + 4 <= o) by {
            assert(sites.drop_first()[a] == sites[a + 1]);
        }
        lemma_patch_all_frame(b2, sites.drop_first(), o);
    }
}

/// Backpatching resolves every waiting operand: once a label is defined,
/// each jump operand that was pending for it holds the little-endian
/// encoding of the definition's offset (the buffer's length at that
/// moment). Stated for operand offsets that do not overlap, which the
/// assembler's five-byte jump instructions guarantee.
pub proof fn lemma_patching_resolves(b: Seq<u8>, sites: Seq<usize>, x: int)
    requires
        0 <= x < sites.len(),
        forall|a: int| 0 <= a < sites.len() ==> (#[trigger] sites[a]) + 4 <= b.len(),
        forall|a1: int, a2: int|
            0 <= a1 < a2 < sites.len() ==> (#[trigger] sites[a1]) + 4 <= #[trigger] sites[a2]
                || sites[a2] + 4 <= sites[a1],
    ensures
        patch_all(b, sites).subrange(sites[x] as int, sites[x] + 4)
            == vstd::bytes::spec_u32_to_le_bytes(b.len() as u32),
    decreases sites.len(),
{
    vstd::bytes::lemma_auto_spec_u32_to_from_le_bytes();
    let b2 = patched(b, sites[0] as int);
    assert(b2.len() == b.len());
    let rest = sites.drop_first();
    assert forall|a: int| 0 <= a < rest.len() implies (#[trigger] rest[a]) + 4 <= b2.len() by {
        assert(rest[a] == sites[a + 1]);
    }
    assert forall|a1: int, a2: int| 0 <= a1 < a2 < rest.len() implies (#[trigger] rest[a1]) + 4
        <= #[trigger] rest[a2] || rest[a2] + 4 <= rest[a1] by {
        assert(rest[a1] == sites[a1 + 1]);
        assert(rest[a2] == sites[a2 + 1]);
    }
    if x == 0 {
        assert(b2.subrange(sites[0] as int, sites[0] + 4) =~= vstd::bytes::spec_u32_to_le_bytes(
            b.len() as u32,
        ));
        assert forall|o: int| sites[0] <= o < sites[0] + 4 implies patch_all(b2, rest)[o] == b2[o] by {
            assert forall|a: int| 0 <= a < rest.len() implies o < (#[trigger] rest[a]) || rest[a] + 4
                <= o by {
                assert(rest[a] == sites[a + 1]);
            }
            lemma_patch_all_frame(b2, rest, o);
        }
        lemma_patch_all_len(b2, rest);
        assert(patch_all(b, sites).subrange(sites[x] as int, sites[x] + 4) =~= b2.subrange(
            sites[x] as int,
            sites[x] + 4,
        ));
    } else {
        lemma_patching_resolves(b2, rest, x - 1);
        assert(rest[x - 1] == sites[x]);
    }
}


/// The assembler's state after the tokens in `[k, j)`, or the first error
/// among them.
pub open spec fn fold_to(ts: Seq<TokenV>, k: int, j: int, st: AsmV) -> Result<AsmV, CompileErrorV>
    decreases j - k,
{
    if k >= j {
        Ok(st)
    } else {
        match spec_step_token(st, ts[k]) {
            Ok(st2) => fold_to(ts, k + 1, j, st2),
            Err(e) => Err(e),
        }
    }
}

/// Folding to the end is folding to a midpoint and on from there.
pub proof fn lemma_fold_split(ts: Seq<TokenV>, k: int, j: int, st: AsmV)
    requires
        0 <= k <= j <= ts.len(),
    ensures
        spec_compile_from(ts, k, st) == (match fold_to(ts, k, j, st) {
            Ok(st2) => spec_compile_from(ts, j, st2),
            Err(e) => Err(e),
        }),
    decreases j - k,
{
    if k < j {
        match spec_step_token(st, ts[k]) {
            Ok(st2) => {
                lemma_fold_split(ts, k + 1, j, st2);
            },
            Err(_) => {},
        }
    }
}

/// Whether two four-byte operands do not overlap.
pub open spec fn sites_apart(s1: usize, s2: usize) -> bool {
    s1 + 4 <= s2 || s2 + 4 <= s1
}

/// The structural facts every reachable assembler state keeps: every
/// pending operand lies fully inside the buffer, and no two pending
/// operands overlap.
pub open spec fn asm_wf(st: AsmV) -> bool {
    &&& forall|a: int, b: int|
        0 <= a < st.pending.len() && 0 <= b < st.pending[a].1.len() ==> (#[trigger] st.pending[a].1[b])
            + 4 <= st.prog.bytes.len()
    &&& forall|a1: int, b1: int, a2: int, b2: int|
        0 <= a1 < st.pending.len() && 0 <= b1 < st.pending[a1].1.len() && 0 <= a2
            < st.pending.len() && 0 <= b2 < st.pending[a2].1.len() && (a1 != a2 || b1 != b2)
            ==> sites_apart(#[trigger] st.pending[a1].1[b1], #[trigger] st.pending[a2].1[b2])
    &&& forall|a1: int, a2: int|
        0 <= a1 < a2 < st.pending.len() ==> (#[trigger] st.pending[a1]).0 != (
        #[trigger] st.pending[a2]).0
}

/// One token's step keeps the assembler state well-formed.
proof fn lemma_step_wf(st: AsmV, t: TokenV, st2: AsmV)
    requires
        spec_step_token(st, t) == Ok::<AsmV, CompileErrorV>(st2),
        asm_wf(st),
    ensures
        asm_wf(st2),
{
    vstd::bytes::lemma_auto_spec_u32_to_from_le_bytes();
    match t {
        TokenV::Jump(n) | TokenV::OptJump(n) => {
            if lookup_label(st.labels, n) is None {
                let site = (st.prog.bytes.len() + 1) as usize;
                lemma_pending_idx_char(st.pending, n, 0);
                let i = pending_idx(st.pending, n);
                assert forall|a: int, b: int|
                    0 <= a < st2.pending.len() && 0 <= b < st2.pending[a].1.len() implies (
                #[trigger] st2.pending[a].1[b]) + 4 <= st2.prog.bytes.len() by {
                    if a < st.pending.len() && (a != i || b < st.pending[a].1.len()) {
                        assert(st2.pending[a].1[b] == st.pending[a].1[b]);
                    } else {
                        assert(st2.pending[a].1[b] == site);
                    }
                }
                assert forall|a1: int, b1: int, a2: int, b2: int|
                    0 <= a1 < st2.pending.len() && 0 <= b1 < st2.pending[a1].1.len() && 0 <= a2
                        < st2.pending.len() && 0 <= b2 < st2.pending[a2].1.len() && (a1 != a2 || b1
                        != b2) implies sites_apart(
                    #[trigger] st2.pending[a1].1[b1],
                    #[trigger] st2.pending[a2].1[b2],
                ) by {
                    let old1 = a1 < st.pending.len() && (a1 != i || b1 < st.pending[a1].1.len());
                    let old2 = a2 < st.pending.len() && (a2 != i || b2 < st.pending[a2].1.len());
                    if old1 {
                        assert(st2.pending[a1].1[b1] == st.pending[a1].1[b1]);
                    } else {
                        assert(st2.pending[a1].1[b1] == site);
                    }
                    if old2 {
                        assert(st2.pending[a2].1[b2] == st.pending[a2].1[b2]);
                    } else {
                        assert(st2.pending[a2].1[b2] == site);
                    }
                }
            }
        },
        TokenV::Flag(n) => {
            lemma_pending_idx_char(st.pending, n, 0);
            let i = pending_idx(st.pending, n);
            if i < st.pending.len() {
                assert forall|b: int| 0 <= b < st.pending[i as int].1.len() implies (
                #[trigger] st.pending[i as int].1[b]) + 4 <= st.prog.bytes.len() by {}
                lemma_patch_all_len(st.prog.bytes, st.pending[i].1);
                assert forall|a: int, b: int|
                    0 <= a < st2.pending.len() && 0 <= b < st2.pending[a].1.len() implies (
                #[trigger] st2.pending[a].1[b]) + 4 <= st2.prog.bytes.len() by {
                    if a < i {
                        assert(st2.pending[a] == st.pending[a]);
                    } else {
                        assert(st2.pending[a] == st.pending[a + 1]);
                    }
                }
                assert forall|a1: int, b1: int, a2: int, b2: int|
                    0 <= a1 < st2.pending.len() && 0 <= b1 < st2.pending[a1].1.len() && 0 <= a2
                        < st2.pending.len() && 0 <= b2 < st2.pending[a2].1.len() && (a1 != a2 || b1
                        != b2) implies sites_apart(
                    #[trigger] st2.pending[a1].1[b1],
                    #[trigger] st2.pending[a2].1[b2],
                ) by {
                    let oa1 = if a1 < i { a1 } else { a1 + 1 };
                    let oa2 = if a2 < i { a2 } else { a2 + 1 };
                    assert(st2.pending[a1] == st.pending[oa1]);
                    assert(st2.pending[a2] == st.pending[oa2]);
                }
            }
        },
        _ => {},
    }
}

/// Every state the fold reaches from a well-formed state is well-formed.
proof fn lemma_fold_wf(ts: Seq<TokenV>, k: int, j: int, st: AsmV)
    requires
        0 <= k <= j <= ts.len(),
        asm_wf(st),
        fold_to(ts, k, j, st) is Ok,
    ensures
        asm_wf(fold_to(ts, k, j, st)->Ok_0),
    decreases j - k,
{
    if k < j {
        match spec_step_token(st, ts[k]) {
            Ok(st2) => {
                lemma_step_wf(st, ts[k], st2);
                lemma_fold_wf(ts, k + 1, j, st2);
            },
            Err(_) => {},
        }
    }
}


/// Whether `site` is recorded under `name` in the pending table.
pub open spec fn site_pending(
    pending: Seq<(Seq<char>, Seq<usize>)>,
    name: Seq<char>,
    site: usize,
) -> bool {
    exists|a: int|
        0 <= a < pending.len() && (#[trigger] pending[a]).0 == name && pending[a].1.contains(site)
}

/// A step by any token other than `name`'s own definition keeps a recorded
/// operand offset recorded.
proof fn lemma_step_keeps_site(st: AsmV, t: TokenV, st2: AsmV, name: Seq<char>, site: usize)
    requires
        spec_step_token(st, t) == Ok::<AsmV, CompileErrorV>(st2),
        t != TokenV::Flag(name),
        site_pending(st.pending, name, site),
    ensures
        site_pending(st2.pending, name, site),
{
    let a = choose|a: int|
        0 <= a < st.pending.len() && (#[trigger] st.pending[a]).0 == name && st.pending[a].1.contains(
            site,
        );
    let b = choose|b: int| 0 <= b < st.pending[a].1.len() && st.pending[a].1[b] == site;
    match t {
        TokenV::Jump(n) | TokenV::OptJump(n) => {
            if lookup_label(st.labels, n) is None {
                lemma_pending_idx_char(st.pending, n, 0);
                let i = pending_idx(st.pending, n);
                if i < st.pending.len() && i == a {
                    assert(st2.pending[a].0 == name);
                    assert(st2.pending[a].1[b] == site);
                    assert(st2.pending[a].1.contains(site));
                } else {
                    assert(st2.pending[a].0 == name);
                    assert(st2.pending[a].1.contains(site));
                }
            } else {
                assert(st2.pending[a].1.contains(site));
            }
        },
        TokenV::Flag(n) => {
            lemma_pending_idx_char(st.pending, n, 0);
            let i = pending_idx(st.pending, n);
            if i < st.pending.len() {
                assert(st.pending[i].0 == n);
                assert(a != i);
                if a < i {
                    assert(st2.pending[a].0 == name);
                    assert(st2.pending[a].1.contains(site));
                } else {
                    assert(st2.pending[a - 1] == st.pending[a]);
                    assert(st2.pending[a - 1].0 == name);
                    assert(st2.pending[a - 1].1.contains(site));
                }
            } else {
                assert(st2.pending[a].1.contains(site));
            }
        },
        _ => {
            assert(st2.pending[a].1.contains(site));
        },
    }
}

/// One step never disturbs a four-byte region that no pending operand
/// overlaps: appends leave it in place, and patches only write at pending
/// operands.
proof fn lemma_step_keeps_resolved(st: AsmV, t: TokenV, st2: AsmV, site: usize, off: usize)
    requires
        spec_step_token(st, t) == Ok::<AsmV, CompileErrorV>(st2),
        asm_wf(st),
        site + 4 <= st.prog.bytes.len(),
        forall|a: int, b: int|
            0 <= a < st.pending.len() && 0 <= b < st.pending[a].1.len() ==> sites_apart(
                #[trigger] st.pending[a].1[b],
                site,
            ),
        st.prog.bytes.subrange(site as int, site + 4) == vstd::bytes::spec_u32_to_le_bytes(
            off as u32,
        ),
    ensures
        asm_wf(st2),
        site + 4 <= st2.prog.bytes.len(),
        forall|a: int, b: int|
            0 <= a < st2.pending.len() && 0 <= b < st2.pending[a].1.len() ==> sites_apart(
                #[trigger] st2.pending[a].1[b],
                site,
            ),
        st2.prog.bytes.subrange(site as int, site + 4) == vstd::bytes::spec_u32_to_le_bytes(
            off as u32,
        ),
{
    vstd::bytes::lemma_auto_spec_u32_to_from_le_bytes();
    lemma_step_wf(st, t, st2);
    match t {
        TokenV::Flag(n) => {
            lemma_pending_idx_char(st.pending, n, 0);
            let i = pending_idx(st.pending, n);
            if i < st.pending.len() {
                let sites = st.pending[i].1;
                lemma_patch_all_len(st.prog.bytes, sites);
                assert forall|o: int| site <= o < site + 4 implies patch_all(
                    st.prog.bytes,
                    sites,
                )[o] == st.prog.bytes[o] by {
                    assert forall|b: int| 0 <= b < sites.len() implies o < (#[trigger] sites[b])
                        || sites[b] + 4 <= o by {
                        assert(sites_apart(st.pending[i].1[b], site));
                    }
                    lemma_patch_all_frame(st.prog.bytes, sites, o);
                }
                assert(st2.prog.bytes.subrange(site as int, site + 4) =~= st.prog.bytes.subrange(
                    site as int,
                    site + 4,
                ));
                assert forall|a: int, b: int|
                    0 <= a < st2.pending.len() && 0 <= b < st2.pending[a].1.len() implies sites_apart(
                    #[trigger] st2.pending[a].1[b],
                    site,
                ) by {
                    if a < i {
                        assert(st2.pending[a] == st.pending[a]);
                    } else {
                        assert(st2.pending[a] == st.pending[a + 1]);
                    }
                }
            }
        },
        TokenV::Jump(n) | TokenV::OptJump(n) => {
            assert(st2.prog.bytes.subrange(site as int, site + 4) =~= st.prog.bytes.subrange(
                site as int,
                site + 4,
            ));
            if lookup_label(st.labels, n) is None {
                let new_site = (st.prog.bytes.len() + 1) as usize;
                lemma_pending_idx_char(st.pending, n, 0);
                let i = pending_idx(st.pending, n);
                assert forall|a: int, b: int|
                    0 <= a < st2.pending.len() && 0 <= b < st2.pending[a].1.len() implies sites_apart(
                    #[trigger] st2.pending[a].1[b],
                    site,
                ) by {
                    if a < st.pending.len() && (a != i || b < st.pending[a].1.len()) {
                        assert(st2.pending[a].1[b] == st.pending[a].1[b]);
                    } else {
                        assert(st2.pending[a].1[b] == new_site);
                    }
                }
            }
        },
        _ => {
            if st2.prog.bytes != st.prog.bytes {
                assert(st2.prog.bytes.subrange(site as int, site + 4) =~= st.prog.bytes.subrange(
                    site as int,
                    site + 4,
                ));
            } else {
                assert(st2.prog.bytes.subrange(site as int, site + 4) == st.prog.bytes.subrange(
                    site as int,
                    site + 4,
                ));
            }
        },
    }
}

/// A resolved four-byte operand, apart from every pending one, keeps its
/// value to the end of the stream.
proof fn lemma_resolved_stays(ts: Seq<TokenV>, k: int, st: AsmV, site: usize, off: usize)
    requires
        0 <= k <= ts.len(),
        asm_wf(st),
        site + 4 <= st.prog.bytes.len(),
        forall|a: int, b: int|
            0 <= a < st.pending.len() && 0 <= b < st.pending[a].1.len() ==> sites_apart(
                #[trigger] st.pending[a].1[b],
                site,
            ),
        st.prog.bytes.subrange(site as int, site + 4) == vstd::bytes::spec_u32_to_le_bytes(
            off as u32,
        ),
    ensures
        spec_compile_from(ts, k, st) matches Ok(st2) ==> st2.prog.bytes.subrange(
            site as int,
            site + 4,
        ) == vstd::bytes::spec_u32_to_le_bytes(off as u32),
    decreases ts.len() - k,
{
    if k < ts.len() {
        match spec_step_token(st, ts[k]) {
            Ok(st2) => {
                lemma_step_keeps_resolved(st, ts[k], st2, site, off);
                lemma_resolved_stays(ts, k + 1, st2, site, off);
            },
            Err(_) => {},
        }
    }
}

/// An operand pending for `name` when `name`'s definition is still to come
/// ends up holding the definition's offset: the buffer length at the moment
/// the definition is reached.
proof fn lemma_site_resolves(
    ts: Seq<TokenV>,
    k: int,
    st: AsmV,
    f: int,
    name: Seq<char>,
    site: usize,
)
    requires
        0 <= k <= f < ts.len(),
        ts[f] == TokenV::Flag(name),
        forall|m: int| k <= m < f ==> ts[m] != TokenV::Flag(name),
        asm_wf(st),
        site_pending(st.pending, name, site),
    ensures
        spec_compile_from(ts, k, st) matches Ok(st_end) ==> fold_to(ts, k, f, st) matches Ok(stf)
            && st_end.prog.bytes.subrange(site as int, site + 4)
            == vstd::bytes::spec_u32_to_le_bytes(stf.prog.bytes.len() as u32),
    decreases f - k,
{
    vstd::bytes::lemma_auto_spec_u32_to_from_le_bytes();
    match spec_step_token(st, ts[k]) {
        Err(_) => {},
        Ok(st2) => {
            if k == f {
                // the definition itself: every pending operand for the name,
                // this one included, is patched to the current length
                let a = choose|a: int|
                    0 <= a < st.pending.len() && (#[trigger] st.pending[a]).0 == name
                        && st.pending[a].1.contains(site);
                lemma_pending_idx_char(st.pending, name, 0);
                let i = pending_idx(st.pending, name);
                assert(st.pending[i].0 == name);
                assert(a == i);
                let sites = st.pending[i].1;
                let x = choose|x: int| 0 <= x < sites.len() && sites[x] == site;
                assert forall|b: int| 0 <= b < sites.len() implies (#[trigger] sites[b]) + 4
                    <= st.prog.bytes.len() by {}
                assert forall|b1: int, b2: int| 0 <= b1 < b2 < sites.len() implies sites_apart(
                    #[trigger] sites[b1],
                    #[trigger] sites[b2],
                ) by {
                    assert(sites_apart(st.pending[i].1[b1], st.pending[i].1[b2]));
                }
                lemma_patching_resolves(st.prog.bytes, sites, x);
                lemma_patch_all_len(st.prog.bytes, sites);
                lemma_step_wf(st, ts[k], st2);
                assert forall|a2: int, b2: int|
                    0 <= a2 < st2.pending.len() && 0 <= b2 < st2.pending[a2].1.len() implies sites_apart(
                    #[trigger] st2.pending[a2].1[b2],
                    site,
                ) by {
                    if a2 < i {
                        assert(st2.pending[a2] == st.pending[a2]);
                        assert(sites_apart(st.pending[a2].1[b2], st.pending[i].1[x]));
                    } else {
                        assert(st2.pending[a2] == st.pending[a2 + 1]);
                        assert(sites_apart(st.pending[a2 + 1].1[b2], st.pending[i].1[x]));
                    }
                }
                lemma_resolved_stays(ts, k + 1, st2, site, st.prog.bytes.len() as usize);
            } else {
                lemma_step_wf(st, ts[k], st2);
                lemma_step_keeps_site(st, ts[k], st2, name, site);
                lemma_site_resolves(ts, k + 1, st2, f, name, site);
            }
        },
    }
}

/// Folding to an endpoint is folding to a midpoint and on from there.
proof fn lemma_fold_to_split(ts: Seq<TokenV>, k: int, m: int, j: int, st: AsmV)
    requires
        0 <= k <= m <= j <= ts.len(),
    ensures
        fold_to(ts, k, j, st) == (match fold_to(ts, k, m, st) {
            Ok(st2) => fold_to(ts, m, j, st2),
            Err(e) => Err(e),
        }),
    decreases m - k,
{
    if k < m {
        match spec_step_token(st, ts[k]) {
            Ok(st2) => {
                lemma_fold_to_split(ts, k + 1, m, j, st2);
            },
            Err(_) => {},
        }
    }
}

/// A label undefined at the start of a stretch with no definition of it is
/// still undefined at the stretch's end.
proof fn lemma_fold_keeps_undefined(ts: Seq<TokenV>, k: int, j: int, st: AsmV, name: Seq<char>)
    requires
        0 <= k <= j <= ts.len(),
        lookup_label(st.labels, name) is None,
        forall|m: int| k <= m < j ==> ts[m] != TokenV::Flag(name),
    ensures
        fold_to(ts, k, j, st) matches Ok(st2) ==> lookup_label(st2.labels, name) is None,
    decreases j - k,
{
    if k < j {
        match spec_step_token(st, ts[k]) {
            Ok(st2) => {
                lemma_step_keeps_undefined(st, ts[k], st2, name);
                lemma_fold_keeps_undefined(ts, k + 1, j, st2, name);
            },
            Err(_) => {},
        }
    }
}

/// Label resolution is order-independent: in a stream that compiles, a jump
/// at position `j` referencing a label only defined later, at position `f`,
/// comes out with its operand holding exactly the label's offset -- the
/// buffer length at the moment the definition was reached -- even though a
/// placeholder was emitted first and patched afterwards.
pub proof fn lemma_forward_reference_resolved(ts: Seq<TokenV>, j: int, f: int, name: Seq<char>)
    requires
        0 <= j < f < ts.len(),
        ts[j] == TokenV::Jump(name) || ts[j] == TokenV::OptJump(name),
        ts[f] == TokenV::Flag(name),
        forall|m: int| 0 <= m < f ==> ts[m] != TokenV::Flag(name),
    ensures
        spec_compile(ts) matches Ok(pv) ==> fold_to(ts, 0, j, spec_asm_init()) matches Ok(stj)
            && fold_to(ts, 0, f, spec_asm_init()) matches Ok(stf) && pv.bytes.subrange(
            stj.prog.bytes.len() as int + 1,
            stj.prog.bytes.len() as int + 5,
        ) == vstd::bytes::spec_u32_to_le_bytes(stf.prog.bytes.len() as u32),
{
    let init = spec_asm_init();
    if spec_compile(ts) is Ok {
        let st_end = spec_compile_from(ts, 0, init)->Ok_0;
        assert(asm_wf(init));
        lemma_fold_split(ts, 0, j, init);
        let stj = fold_to(ts, 0, j, init)->Ok_0;
        lemma_fold_wf(ts, 0, j, init);
        lemma_fold_keeps_undefined(ts, 0, j, init, name);
        let st2 = spec_step_token(stj, ts[j])->Ok_0;
        assert(spec_step_token(stj, ts[j]) is Ok);
        let site = (stj.prog.bytes.len() + 1) as usize;
        lemma_pending_idx_char(stj.pending, name, 0);
        let i = pending_idx(stj.pending, name);
        if i < stj.pending.len() {
            assert(st2.pending[i].0 == name);
            assert(st2.pending[i].1.last() == site);
            assert(st2.pending[i].1.contains(site));
        } else {
            assert(st2.pending[stj.pending.len() as int].0 == name);
            assert(st2.pending[stj.pending.len() as int].1 == seq![site]);
            assert(st2.pending[stj.pending.len() as int].1[0] == site);
            assert(st2.pending[stj.pending.len() as int].1.contains(site));
        }
        assert(site_pending(st2.pending, name, site));
        lemma_step_wf(stj, ts[j], st2);
        lemma_site_resolves(ts, j + 1, st2, f, name, site);
        lemma_fold_to_split(ts, 0, j, f, init);
        assert(spec_compile_from(ts, j, stj) == Ok::<AsmV, CompileErrorV>(st_end));
        assert(spec_compile_from(ts, j + 1, st2) == Ok::<AsmV, CompileErrorV>(st_end));
        assert(fold_to(ts, j, f, stj) == (match fold_to(ts, j + 1, f, st2) {
            Ok(x) => Ok::<AsmV, CompileErrorV>(x),
            Err(e) => Err(e),
        }));
    }
}


/// Whether the bytes from `i` on decode as a chain of complete
/// instructions: each opcode byte is valid and is followed by exactly its
/// declared operand width, with the last instruction ending at the end of
/// the buffer.
pub open spec fn well_formed_code(b: Seq<u8>, i: int) -> bool
    decreases b.len() - i,
{
    if i == b.len() {
        true
    } else if i < 0 || i > b.len() {
        false
    } else {
        match OpCode::spec_from_byte(b[i]) {
            Err(_) => false,
            Ok(op) => i + 1 + op.spec_size_operand() <= b.len() && well_formed_code(
                b,
                i + 1 + op.spec_size_operand(),
            ),
        }
    }
}

/// Whether `site` is the four-byte operand position of a jump-family
/// instruction in the chain that starts at `i`.
pub open spec fn operand_site_at(b: Seq<u8>, i: int, site: int) -> bool
    decreases b.len() - i,
{
    if i < 0 || i >= b.len() {
        false
    } else {
        match OpCode::spec_from_byte(b[i]) {
            Err(_) => false,
            Ok(op) => {
                let next = i + 1 + op.spec_size_operand();
                if next > b.len() {
                    false
                } else if site < next {
                    (op == OpCode::Jump || op == OpCode::PopJumpIfFalse) && site == i + 1
                } else {
                    operand_site_at(b, next, site)
                }
            },
        }
    }
}

/// Patching one operand disturbs neither the instruction chain nor where
/// any operand position sits: only bytes inside one instruction's operand
/// change.
proof fn lemma_patched_chain(b: Seq<u8>, site: usize, i: int)
    requires
        well_formed_code(b, i),
        operand_site_at(b, i, site as int) || site + 4 <= i,
        site + 4 <= b.len(),
    ensures
        patched(b, site as int).len() == b.len(),
        well_formed_code(patched(b, site as int), i),
        forall|s2: int| operand_site_at(patched(b, site as int), i, s2) == operand_site_at(
            b,
            i,
            s2,
        ),
    decreases b.len() - i,
{
    vstd::bytes::lemma_auto_spec_u32_to_from_le_bytes();
    let b2 = patched(b, site as int);
    assert(b2.len() == b.len());
    assert forall|p: int| 0 <= p < b.len() && (p < site || site + 4 <= p) implies b2[p] == b[p] by {}
    if i < b.len() {
        assert(b2[i] == b[i]);
        let op = OpCode::spec_from_byte(b[i])->Ok_0;
        let next = i + 1 + op.spec_size_operand();
        lemma_patched_chain(b, site, next);
        assert forall|s2: int| operand_site_at(b2, i, s2) == operand_site_at(b, i, s2) by {
            if s2 >= next {
                assert(operand_site_at(b2, next, s2) == operand_site_at(b, next, s2));
            }
        }
    }
}

/// Patching a batch of operands, each of them a genuine operand position,
/// keeps the instruction chain intact.
proof fn lemma_patch_all_chain(b: Seq<u8>, sites: Seq<usize>)
    requires
        well_formed_code(b, 0),
        forall|k: int| 0 <= k < sites.len() ==> operand_site_at(b, 0, (#[trigger] sites[k]) as int),
        forall|k: int| 0 <= k < sites.len() ==> (#[trigger] sites[k]) + 4 <= b.len(),
    ensures
        patch_all(b, sites).len() == b.len(),
        well_formed_code(patch_all(b, sites), 0),
        forall|s2: int| operand_site_at(patch_all(b, sites), 0, s2) == operand_site_at(b, 0, s2),
    decreases sites.len(),
{
    if sites.len() > 0 {
        let b2 = patched(b, sites[0] as int);
        lemma_patched_chain(b, sites[0], 0);
        let rest = sites.drop_first();
        assert forall|k: int| 0 <= k < rest.len() implies operand_site_at(
            b2,
            0,
            (#[trigger] rest[k]) as int,
        ) && rest[k] + 4 <= b2.len() by {
            assert(rest[k] == sites[k + 1]);
            assert(operand_site_at(b, 0, sites[k + 1] as int));
        }
        lemma_patch_all_chain(b2, rest);
    }
}

/// Appending instructions that are themselves well formed at the junction
/// keeps the chain well formed, and keeps every existing operand position
/// an operand position.
proof fn lemma_wf_extend(b: Seq<u8>, t: Seq<u8>, i: int)
    requires
        well_formed_code(b, i),
        well_formed_code(b + t, b.len() as int),
    ensures
        well_formed_code(b + t, i),
        forall|s2: int| operand_site_at(b, i, s2) ==> operand_site_at(b + t, i, s2),
    decreases b.len() - i,
{
    if i < b.len() {
        assert((b + t)[i] == b[i]);
        let op = OpCode::spec_from_byte(b[i])->Ok_0;
        let next = i + 1 + op.spec_size_operand();
        lemma_wf_extend(b, t, next);
        assert forall|s2: int| operand_site_at(b, i, s2) implies operand_site_at(b + t, i, s2) by {
            if s2 >= next {
                assert(operand_site_at(b, next, s2));
                assert(operand_site_at(b + t, next, s2));
            }
        }
    } else {
        assert(forall|s2: int| !operand_site_at(b, i, s2));
    }
}

/// After appending one size-four-operand instruction, the byte just past
/// its opcode is an operand position of the extended chain.
proof fn lemma_new_operand_site(b: Seq<u8>, t: Seq<u8>, i: int)
    requires
        well_formed_code(b, i),
        0 <= i,
        t.len() == 5,
        OpCode::spec_from_byte(t[0]) == Ok::<OpCode, InvalidOpCode>(OpCode::Jump)
            || OpCode::spec_from_byte(t[0]) == Ok::<OpCode, InvalidOpCode>(OpCode::PopJumpIfFalse),
    ensures
        operand_site_at(b + t, i, b.len() as int + 1),
    decreases b.len() - i,
{
    if i < b.len() {
        assert((b + t)[i] == b[i]);
        let op = OpCode::spec_from_byte(b[i])->Ok_0;
        let next = i + 1 + op.spec_size_operand();
        lemma_new_operand_site(b, t, next);
    } else {
        assert((b + t)[i] == t[0]);
    }
}


/// The decodability facts every reachable assembler state keeps: the
/// program built so far is a well-formed instruction chain, and every
/// pending operand offset is a genuine operand position in it.
pub open spec fn code_wf(st: AsmV) -> bool {
    &&& well_formed_code(st.prog.bytes, 0)
    &&& forall|a: int, b: int|
        0 <= a < st.pending.len() && 0 <= b < st.pending[a].1.len() ==> operand_site_at(
            st.prog.bytes,
            0,
            (#[trigger] st.pending[a].1[b]) as int,
        )
}

/// One token's emission keeps the program decodable: every instruction is
/// appended whole, and patches land only inside operands.
proof fn lemma_step_code_wf(st: AsmV, t: TokenV, st2: AsmV)
    requires
        spec_step_token(st, t) == Ok::<AsmV, CompileErrorV>(st2),
        asm_wf(st),
        code_wf(st),
    ensures
        code_wf(st2),
{
    vstd::bytes::lemma_auto_spec_u32_to_from_le_bytes();
    let b = st.prog.bytes;
    match t {
        TokenV::Whitespace | TokenV::Comment | TokenV::End => {},
        TokenV::Add | TokenV::Sub | TokenV::Mul | TokenV::Div | TokenV::Le | TokenV::Lt
            | TokenV::Ge | TokenV::Gt | TokenV::Eq | TokenV::Not => {
            let op = match t {
                TokenV::Add => OpCode::Add,
                TokenV::Sub => OpCode::Sub,
                TokenV::Mul => OpCode::Mul,
                TokenV::Div => OpCode::Div,
                TokenV::Le => OpCode::Le,
                TokenV::Lt => OpCode::Lt,
                TokenV::Ge => OpCode::Ge,
                TokenV::Gt => OpCode::Gt,
                TokenV::Eq => OpCode::Eq,
                _ => OpCode::UnaryNot,
            };
            lemma_append_op_wf(b, op);
        },
        TokenV::Keyword(k) => {
            if k == "ret"@ {
                lemma_append_op_wf(b, OpCode::Ret);
            } else if k == "pop"@ {
                lemma_append_op_wf(b, OpCode::Pop);
            } else if k == "swap"@ {
                lemma_append_op_wf(b, OpCode::Swap);
            } else if k == "dup"@ {
                lemma_append_op_wf(b, OpCode::Dup);
            } else if k == "dup_swap"@ {
                lemma_append_op_wf(b, OpCode::DupSwap);
            } else {
                let t2 = seq![OpCode::PrepareFuncCall.spec_byte()].push(OpCode::Jump.spec_byte())
                    + vstd::bytes::spec_u32_to_le_bytes(crate::builtins::PRINT_ENTRY as u32);
                assert(st2.prog.bytes =~= b + t2);
                lemma_opcode_byte_roundtrip(OpCode::PrepareFuncCall);
                lemma_opcode_byte_roundtrip(OpCode::Jump);
                assert((b + t2)[b.len() as int] == OpCode::PrepareFuncCall.spec_byte());
                assert((b + t2)[b.len() as int + 1] == OpCode::Jump.spec_byte());
                assert(well_formed_code(b + t2, b.len() as int + 6));
                assert(well_formed_code(b + t2, b.len() as int + 1));
                assert(well_formed_code(b + t2, b.len() as int));
                lemma_wf_extend(b, t2, 0);
            }
        },
        TokenV::Int(_) | TokenV::Float(_) | TokenV::Str(_) => {
            let (pool, idx) = crate::program::val_pool_insert(
                st.prog.constants,
                match t {
                    TokenV::Int(v) => ValueV::Int(v),
                    TokenV::Float(bits) => ValueV::Float(bits),
                    _ => ValueV::Str(t->Str_0),
                },
            );
            let t2 = seq![OpCode::LoadConst.spec_byte()] + vstd::bytes::spec_u32_to_le_bytes(
                idx as u32,
            );
            assert(st2.prog.bytes =~= b + t2);
            lemma_opcode_byte_roundtrip(OpCode::LoadConst);
            assert((b + t2)[b.len() as int] == OpCode::LoadConst.spec_byte());
            assert(well_formed_code(b + t2, b.len() as int + 5));
            assert(well_formed_code(b + t2, b.len() as int));
            lemma_wf_extend(b, t2, 0);
        },
        TokenV::Jump(n) | TokenV::OptJump(n) => {
            let op = if t is Jump {
                OpCode::Jump
            } else {
                OpCode::PopJumpIfFalse
            };
            let operand: u32 = match lookup_label(st.labels, n) {
                Some(loc) => loc as u32,
                None => 0u32,
            };
            let t2 = seq![op.spec_byte()] + vstd::bytes::spec_u32_to_le_bytes(operand);
            assert(st2.prog.bytes =~= b + t2);
            lemma_opcode_byte_roundtrip(op);
            assert((b + t2)[b.len() as int] == op.spec_byte());
            assert(well_formed_code(b + t2, b.len() as int + 5));
            assert(well_formed_code(b + t2, b.len() as int));
            lemma_wf_extend(b, t2, 0);
            if lookup_label(st.labels, n) is None {
                let site = (b.len() + 1) as usize;
                lemma_new_operand_site(b, t2, 0);
                lemma_pending_idx_char(st.pending, n, 0);
                let i = pending_idx(st.pending, n);
                assert forall|a: int, c: int|
                    0 <= a < st2.pending.len() && 0 <= c < st2.pending[a].1.len() implies operand_site_at(
                    st2.prog.bytes,
                    0,
                    (#[trigger] st2.pending[a].1[c]) as int,
                ) by {
                    if a < st.pending.len() && (a != i || c < st.pending[a].1.len()) {
                        assert(st2.pending[a].1[c] == st.pending[a].1[c]);
                        assert(operand_site_at(b, 0, st.pending[a].1[c] as int));
                    } else {
                        assert(st2.pending[a].1[c] == site);
                    }
                }
            }
        },
        TokenV::Flag(n) => {
            lemma_pending_idx_char(st.pending, n, 0);
            let i = pending_idx(st.pending, n);
            if i < st.pending.len() {
                let sites = st.pending[i].1;
                assert forall|k: int| 0 <= k < sites.len() implies operand_site_at(
                    b,
                    0,
                    (#[trigger] sites[k]) as int,
                ) && sites[k] + 4 <= b.len() by {
                    assert(operand_site_at(b, 0, st.pending[i as int].1[k] as int));
                }
                lemma_patch_all_chain(b, sites);
                assert forall|a: int, c: int|
                    0 <= a < st2.pending.len() && 0 <= c < st2.pending[a].1.len() implies operand_site_at(
                    st2.prog.bytes,
                    0,
                    (#[trigger] st2.pending[a].1[c]) as int,
                ) by {
                    if a < i {
                        assert(st2.pending[a] == st.pending[a]);
                        assert(operand_site_at(b, 0, st.pending[a].1[c] as int));
                    } else {
                        assert(st2.pending[a] == st.pending[a + 1]);
                        assert(operand_site_at(b, 0, st.pending[a + 1].1[c] as int));
                    }
                }
            }
        },
    }
}

/// Appending one zero-operand instruction keeps the chain decodable.
proof fn lemma_append_op_wf(b: Seq<u8>, op: OpCode)
    requires
        well_formed_code(b, 0),
        op.spec_size_operand() == 0,
        op != OpCode::StopCode,
    ensures
        well_formed_code(b.push(op.spec_byte()), 0),
        forall|s2: int| operand_site_at(b, 0, s2) ==> operand_site_at(
            b.push(op.spec_byte()),
            0,
            s2,
        ),
{
    let t = seq![op.spec_byte()];
    assert(b.push(op.spec_byte()) =~= b + t);
    lemma_opcode_byte_roundtrip(op);
    assert((b + t)[b.len() as int] == op.spec_byte());
    assert(well_formed_code(b + t, b.len() as int + 1));
    assert(well_formed_code(b + t, b.len() as int));
    lemma_wf_extend(b, t, 0);
}

/// Every state the fold reaches from a decodable, well-formed state is
/// decodable.
proof fn lemma_fold_code_wf(ts: Seq<TokenV>, k: int, st: AsmV)
    requires
        0 <= k <= ts.len(),
        asm_wf(st),
        code_wf(st),
    ensures
        spec_compile_from(ts, k, st) matches Ok(st2) ==> code_wf(st2),
    decreases ts.len() - k,
{
    if k < ts.len() {
        match spec_step_token(st, ts[k]) {
            Ok(st2) => {
                lemma_step_code_wf(st, ts[k], st2);
                lemma_step_wf(st, ts[k], st2);
                lemma_fold_code_wf(ts, k + 1, st2);
            },
            Err(_) => {},
        }
    }
}

/// The preamble decodes as a chain of complete instructions.
proof fn lemma_preamble_wf()
    ensures
        well_formed_code(preamble_bytes(), 0),
        preamble_bytes().len() == 7,
{
    vstd::bytes::lemma_auto_spec_u32_to_from_le_bytes();
    let base = (Seq::<u8>::empty().push(OpCode::Jump.spec_byte()) + vstd::bytes::spec_u32_to_le_bytes(
        0u32,
    )).push(OpCode::Pop.spec_byte()).push(OpCode::Ret.spec_byte());
    let p = preamble_bytes();
    assert(base.len() == 7);
    assert(p.len() == 7);
    assert(p[0] == base[0]);
    assert(base[0] == OpCode::Jump.spec_byte());
    assert(p[5] == base[5]);
    assert(base[5] == OpCode::Pop.spec_byte());
    assert(p[6] == base[6]);
    assert(base[6] == OpCode::Ret.spec_byte());
    lemma_opcode_byte_roundtrip(OpCode::Jump);
    lemma_opcode_byte_roundtrip(OpCode::Pop);
    lemma_opcode_byte_roundtrip(OpCode::Ret);
    assert(well_formed_code(p, 7));
    assert(well_formed_code(p, 6));
    assert(well_formed_code(p, 5));
    assert(well_formed_code(p, 0));
}

/// The assembler's own output always decodes cleanly: every program that
/// compilation hands back is a chain of complete instructions, each valid
/// opcode byte followed by exactly its declared operand width. An invalid
/// opcode at run time can only come from a corrupted or hand-crafted byte
/// stream, never from compilation.
pub proof fn lemma_compiled_code_decodes(ts: Seq<TokenV>)
    ensures
        spec_compile(ts) matches Ok(pv) ==> well_formed_code(pv.bytes, 0),
{
    let init = spec_asm_init();
    lemma_preamble_wf();
    assert(asm_wf(init));
    assert(code_wf(init));
    lemma_fold_code_wf(ts, 0, init);
}


/// Whether every `LoadConst` operand in the instruction chain from `i` on
/// indexes below `n`, the constant pool's length.
pub open spec fn const_ops_valid(b: Seq<u8>, i: int, n: int) -> bool
    decreases b.len() - i,
{
    if i < 0 || i >= b.len() {
        true
    } else {
        match OpCode::spec_from_byte(b[i]) {
            Err(_) => true,
            Ok(op) => {
                let next = i + 1 + op.spec_size_operand();
                if next > b.len() {
                    true
                } else {
                    &&& (op == OpCode::LoadConst ==> vstd::bytes::spec_u32_from_le_bytes(
                        b.subrange(i + 1, i + 5),
                    ) < n)
                    &&& const_ops_valid(b, next, n)
                }
            },
        }
    }
}

/// Valid pool indices stay valid as the pool grows.
proof fn lemma_const_ops_mono(b: Seq<u8>, i: int, n: int, n2: int)
    requires
        const_ops_valid(b, i, n),
        n <= n2,
    ensures
        const_ops_valid(b, i, n2),
    decreases b.len() - i,
{
    if 0 <= i < b.len() {
        match OpCode::spec_from_byte(b[i]) {
            Err(_) => {},
            Ok(op) => {
                if i + 1 + op.spec_size_operand() <= b.len() {
                    lemma_const_ops_mono(b, i + 1 + op.spec_size_operand(), n, n2);
                }
            },
        }
    }
}

/// Appending instructions whose own constant operands are valid keeps the
/// whole chain's constant operands valid.
proof fn lemma_extend_consts(b: Seq<u8>, t: Seq<u8>, i: int, n: int)
    requires
        well_formed_code(b, i),
        const_ops_valid(b, i, n),
        const_ops_valid(b + t, b.len() as int, n),
    ensures
        const_ops_valid(b + t, i, n),
    decreases b.len() - i,
{
    if i < b.len() {
        assert((b + t)[i] == b[i]);
        let op = OpCode::spec_from_byte(b[i])->Ok_0;
        let next = i + 1 + op.spec_size_operand();
        if op == OpCode::LoadConst {
            assert((b + t).subrange(i + 1, i + 5) =~= b.subrange(i + 1, i + 5));
        }
        lemma_extend_consts(b, t, next, n);
    }
}

/// Patching a jump operand never changes what a `LoadConst` operand holds:
/// the patched bytes lie inside one jump instruction.
proof fn lemma_patched_consts(b: Seq<u8>, site: usize, i: int, n: int)
    requires
        well_formed_code(b, i),
        const_ops_valid(b, i, n),
        operand_site_at(b, i, site as int) || site + 4 <= i,
        site + 4 <= b.len(),
    ensures
        const_ops_valid(patched(b, site as int), i, n),
    decreases b.len() - i,
{
    vstd::bytes::lemma_auto_spec_u32_to_from_le_bytes();
    let b2 = patched(b, site as int);
    assert(b2.len() == b.len());
    assert forall|p: int| 0 <= p < b.len() && (p < site || site + 4 <= p) implies b2[p] == b[p] by {}
    if i < b.len() {
        assert(b2[i] == b[i]);
        let op = OpCode::spec_from_byte(b[i])->Ok_0;
        let next = i + 1 + op.spec_size_operand();
        if operand_site_at(b, i, site as int) && site < next {
            // this is the patched jump itself: no constant operand here
            assert(op == OpCode::Jump || op == OpCode::PopJumpIfFalse);
            lemma_patched_consts(b, site, next, n);
        } else {
            if op == OpCode::LoadConst {
                assert(b2.subrange(i + 1, i + 5) =~= b.subrange(i + 1, i + 5));
            }
            lemma_patched_consts(b, site, next, n);
        }
    }
}

/// Patching a batch of jump operands keeps every constant operand valid.
proof fn lemma_patch_all_consts(b: Seq<u8>, sites: Seq<usize>, n: int)
    requires
        well_formed_code(b, 0),
        const_ops_valid(b, 0, n),
        forall|k: int| 0 <= k < sites.len() ==> operand_site_at(b, 0, (#[trigger] sites[k]) as int),
        forall|k: int| 0 <= k < sites.len() ==> (#[trigger] sites[k]) + 4 <= b.len(),
    ensures
        const_ops_valid(patch_all(b, sites), 0, n),
    decreases sites.len(),
{
    if sites.len() > 0 {
        let b2 = patched(b, sites[0] as int);
        lemma_patched_consts(b, sites[0], 0, n);
        lemma_patched_chain(b, sites[0], 0);
        let rest = sites.drop_first();
        assert forall|k: int| 0 <= k < rest.len() implies operand_site_at(
            b2,
            0,
            (#[trigger] rest[k]) as int,
        ) && rest[k] + 4 <= b2.len() by {
            assert(rest[k] == sites[k + 1]);
            assert(operand_site_at(b, 0, sites[k + 1] as int));
        }
        lemma_patch_all_consts(b2, rest, n);
    }
}


/// Appending one zero-operand instruction adds no constant operand.
proof fn lemma_append_op_consts(b: Seq<u8>, op: OpCode, n: int)
    requires
        well_formed_code(b, 0),
        const_ops_valid(b, 0, n),
        op.spec_size_operand() == 0,
        op != OpCode::StopCode,
    ensures
        const_ops_valid(b.push(op.spec_byte()), 0, n),
{
    let t = seq![op.spec_byte()];
    assert(b.push(op.spec_byte()) =~= b + t);
    lemma_opcode_byte_roundtrip(op);
    assert((b + t)[b.len() as int] == op.spec_byte());
    assert(const_ops_valid(b + t, b.len() as int + 1, n));
    assert(const_ops_valid(b + t, b.len() as int, n));
    lemma_extend_consts(b, t, 0, n);
}

/// The pool-related facts every reachable assembler state keeps: the pool
/// stays far smaller than the buffer (each entry costs a five-byte
/// instruction), and every constant operand emitted so far indexes inside
/// the pool.
pub open spec fn pool_wf(st: AsmV) -> bool {
    &&& st.prog.constants.len() * 5 <= st.prog.bytes.len()
    &&& const_ops_valid(st.prog.bytes, 0, st.prog.constants.len() as int)
}

/// One token's emission keeps the pool facts: a `LoadConst` is emitted with
/// the index its value was pooled at, and nothing later changes a constant
/// operand.
proof fn lemma_step_pool_wf(st: AsmV, t: TokenV, st2: AsmV)
    requires
        spec_step_token(st, t) == Ok::<AsmV, CompileErrorV>(st2),
        asm_wf(st),
        code_wf(st),
        pool_wf(st),
    ensures
        pool_wf(st2),
{
    vstd::bytes::lemma_auto_spec_u32_to_from_le_bytes();
    let b = st.prog.bytes;
    let n = st.prog.constants.len() as int;
    match t {
        TokenV::Whitespace | TokenV::Comment | TokenV::End => {},
        TokenV::Add | TokenV::Sub | TokenV::Mul | TokenV::Div | TokenV::Le | TokenV::Lt
            | TokenV::Ge | TokenV::Gt | TokenV::Eq | TokenV::Not => {
            let op = match t {
                TokenV::Add => OpCode::Add,
                TokenV::Sub => OpCode::Sub,
                TokenV::Mul => OpCode::Mul,
                TokenV::Div => OpCode::Div,
                TokenV::Le => OpCode::Le,
                TokenV::Lt => OpCode::Lt,
                TokenV::Ge => OpCode::Ge,
                TokenV::Gt => OpCode::Gt,
                TokenV::Eq => OpCode::Eq,
                _ => OpCode::UnaryNot,
            };
            lemma_append_op_consts(b, op, n);
            assert(st2.prog.bytes =~= b.push(op.spec_byte()));
        },
        TokenV::Keyword(k) => {
            if k == "ret"@ || k == "pop"@ || k == "swap"@ || k == "dup"@ || k == "dup_swap"@ {
                let op = if k == "ret"@ {
                    OpCode::Ret
                } else if k == "pop"@ {
                    OpCode::Pop
                } else if k == "swap"@ {
                    OpCode::Swap
                } else if k == "dup"@ {
                    OpCode::Dup
                } else {
                    OpCode::DupSwap
                };
                lemma_append_op_consts(b, op, n);
                assert(st2.prog.bytes =~= b.push(op.spec_byte()));
            } else {
                let t2 = seq![OpCode::PrepareFuncCall.spec_byte()].push(OpCode::Jump.spec_byte())
                    + vstd::bytes::spec_u32_to_le_bytes(crate::builtins::PRINT_ENTRY as u32);
                assert(st2.prog.bytes =~= b + t2);
                lemma_opcode_byte_roundtrip(OpCode::PrepareFuncCall);
                lemma_opcode_byte_roundtrip(OpCode::Jump);
                assert((b + t2)[b.len() as int] == OpCode::PrepareFuncCall.spec_byte());
                assert((b + t2)[b.len() as int + 1] == OpCode::Jump.spec_byte());
                assert(const_ops_valid(b + t2, b.len() as int + 6, n));
                assert(const_ops_valid(b + t2, b.len() as int + 1, n));
                assert(const_ops_valid(b + t2, b.len() as int, n));
                lemma_extend_consts(b, t2, 0, n);
            }
        },
        TokenV::Jump(_) | TokenV::OptJump(_) => {
            let op = if t is Jump {
                OpCode::Jump
            } else {
                OpCode::PopJumpIfFalse
            };
            let name = if t is Jump {
                t->Jump_0
            } else {
                t->OptJump_0
            };
            let operand: u32 = match lookup_label(st.labels, name) {
                Some(loc) => loc as u32,
                None => 0u32,
            };
            let t2 = seq![op.spec_byte()] + vstd::bytes::spec_u32_to_le_bytes(operand);
            assert(st2.prog.bytes =~= b + t2);
            lemma_opcode_byte_roundtrip(op);
            assert((b + t2)[b.len() as int] == op.spec_byte());
            assert(const_ops_valid(b + t2, b.len() as int + 5, n));
            assert(const_ops_valid(b + t2, b.len() as int, n));
            lemma_extend_consts(b, t2, 0, n);
        },
        TokenV::Int(_) | TokenV::Float(_) | TokenV::Str(_) => {
            let v = match t {
                TokenV::Int(x) => ValueV::Int(x),
                TokenV::Float(bits) => ValueV::Float(bits),
                _ => ValueV::Str(t->Str_0),
            };
            let (pool, idx) = crate::program::val_pool_insert(st.prog.constants, v);
            crate::program::lemma_first_val_match_bounds(st.prog.constants, v, 0);
            let n2 = pool.len() as int;
            let t2 = seq![OpCode::LoadConst.spec_byte()] + vstd::bytes::spec_u32_to_le_bytes(
                idx as u32,
            );
            assert(st2.prog.bytes =~= b + t2);
            lemma_opcode_byte_roundtrip(OpCode::LoadConst);
            assert((b + t2)[b.len() as int] == OpCode::LoadConst.spec_byte());
            assert(0 <= idx < n2);
            assert(idx <= n);
            assert(n * 5 <= b.len() <= crate::program::CODE_LIMIT);
            assert(idx <= u32::MAX);
            assert((b + t2).subrange(b.len() as int + 1, b.len() as int + 5)
                =~= vstd::bytes::spec_u32_to_le_bytes(idx as u32));
            assert(vstd::bytes::spec_u32_from_le_bytes(
                (b + t2).subrange(b.len() as int + 1, b.len() as int + 5),
            ) == idx as u32);
            assert(const_ops_valid(b + t2, b.len() as int + 5, n2));
            assert(const_ops_valid(b + t2, b.len() as int, n2));
            lemma_const_ops_mono(b, 0, n, n2);
            lemma_extend_consts(b, t2, 0, n2);
        },
        TokenV::Flag(name) => {
            lemma_pending_idx_char(st.pending, name, 0);
            let i = pending_idx(st.pending, name);
            if i < st.pending.len() {
                let sites = st.pending[i].1;
                assert forall|k: int| 0 <= k < sites.len() implies operand_site_at(
                    b,
                    0,
                    (#[trigger] sites[k]) as int,
                ) && sites[k] + 4 <= b.len() by {
                    assert(operand_site_at(b, 0, st.pending[i as int].1[k] as int));
                }
                lemma_patch_all_consts(b, sites, n);
                lemma_patch_all_chain(b, sites);
            }
        },
    }
}

/// Every state the fold reaches keeps its constant operands valid.
proof fn lemma_fold_pool_wf(ts: Seq<TokenV>, k: int, st: AsmV)
    requires
        0 <= k <= ts.len(),
        asm_wf(st),
        code_wf(st),
        pool_wf(st),
    ensures
        spec_compile_from(ts, k, st) matches Ok(st2) ==> pool_wf(st2),
    decreases ts.len() - k,
{
    if k < ts.len() {
        match spec_step_token(st, ts[k]) {
            Ok(st2) => {
                lemma_step_pool_wf(st, ts[k], st2);
                lemma_step_code_wf(st, ts[k], st2);
                lemma_step_wf(st, ts[k], st2);
                lemma_fold_pool_wf(ts, k + 1, st2);
            },
            Err(_) => {},
        }
    }
}

/// Every `LoadConst` operand in a compiled program is a valid index into
/// its constant pool: an out-of-range pool access at run time can only come
/// from a corrupted or hand-crafted byte stream, never from compilation.
pub proof fn lemma_compiled_const_indices_valid(ts: Seq<TokenV>)
    ensures
        spec_compile(ts) matches Ok(pv) ==> const_ops_valid(pv.bytes, 0, pv.constants.len() as int),
{
    let init = spec_asm_init();
    lemma_preamble_wf();
    assert(asm_wf(init));
    assert(code_wf(init));
    let p = preamble_bytes();
    assert(const_ops_valid(p, 7, 0));
    assert(const_ops_valid(p, 6, 0));
    assert(const_ops_valid(p, 5, 0));
    assert(const_ops_valid(p, 0, 0));
    assert(pool_wf(init));
    lemma_fold_pool_wf(ts, 0, init);
}


/// A resolved label keeps its offset: later definitions only append to the
/// label table, and lookup takes the first entry.
proof fn lemma_fold_keeps_label_value(
    ts: Seq<TokenV>,
    k: int,
    j: int,
    st: AsmV,
    name: Seq<char>,
    off: usize,
)
    requires
        0 <= k <= j <= ts.len(),
        lookup_label(st.labels, name) == Some(off),
    ensures
        fold_to(ts, k, j, st) matches Ok(st2) ==> lookup_label(st2.labels, name) == Some(off),
    decreases j - k,
{
    if k < j {
        match spec_step_token(st, ts[k]) {
            Ok(st2) => {
                lemma_step_labels(st, ts[k], st2);
                match ts[k] {
                    TokenV::Flag(n) => {
                        lemma_lookup_push(st.labels, (n, st.prog.bytes.len() as usize), name, 0);
                    },
                    _ => {},
                }
                lemma_fold_keeps_label_value(ts, k + 1, j, st2, name, off);
            },
            Err(_) => {},
        }
    }
}

/// The other direction of order-independent label resolution: a jump at
/// position `j` referencing a label already defined at position `f` before
/// it comes out with its operand holding exactly the label's offset -- the
/// buffer length at the moment the definition was reached -- emitted final
/// from the start, with nothing later disturbing it.
pub proof fn lemma_backward_reference_resolved(ts: Seq<TokenV>, f: int, j: int, name: Seq<char>)
    requires
        0 <= f < j < ts.len(),
        ts[f] == TokenV::Flag(name),
        ts[j] == TokenV::Jump(name) || ts[j] == TokenV::OptJump(name),
        forall|m: int| 0 <= m < f ==> ts[m] != TokenV::Flag(name),
    ensures
        spec_compile(ts) matches Ok(pv) ==> fold_to(ts, 0, f, spec_asm_init()) matches Ok(stf)
            && fold_to(ts, 0, j, spec_asm_init()) matches Ok(stj) && pv.bytes.subrange(
            stj.prog.bytes.len() as int + 1,
            stj.prog.bytes.len() as int + 5,
        ) == vstd::bytes::spec_u32_to_le_bytes(stf.prog.bytes.len() as u32),
{
    vstd::bytes::lemma_auto_spec_u32_to_from_le_bytes();
    let init = spec_asm_init();
    if spec_compile(ts) is Ok {
        let st_end = spec_compile_from(ts, 0, init)->Ok_0;
        assert(asm_wf(init));
        lemma_fold_split(ts, 0, f, init);
        let stf = fold_to(ts, 0, f, init)->Ok_0;
        lemma_fold_keeps_undefined(ts, 0, f, init, name);
        let st2 = spec_step_token(stf, ts[f])->Ok_0;
        assert(spec_step_token(stf, ts[f]) is Ok);
        let off = stf.prog.bytes.len() as usize;
        lemma_step_labels(stf, ts[f], st2);
        lemma_lookup_push(stf.labels, (name, off), name, 0);
        assert(lookup_label(st2.labels, name) == Some(off));
        lemma_fold_split(ts, 0, j, init);
        let stj = fold_to(ts, 0, j, init)->Ok_0;
        lemma_fold_to_split(ts, 0, f, j, init);
        assert(fold_to(ts, f, j, stf) == (match fold_to(ts, f + 1, j, st2) {
            Ok(x) => Ok::<AsmV, CompileErrorV>(x),
            Err(e) => Err(e),
        }));
        lemma_fold_keeps_label_value(ts, f + 1, j, st2, name, off);
        assert(lookup_label(stj.labels, name) == Some(off));
        lemma_fold_wf(ts, 0, j, init);
        assert(asm_wf(stj));
        // the jump at `j` is emitted with the final offset at once
        let stj2 = spec_step_token(stj, ts[j])->Ok_0;
        assert(spec_step_token(stj, ts[j]) is Ok);
        let site = (stj.prog.bytes.len() + 1) as usize;
        assert(stj2.prog.bytes.subrange(site as int, site as int + 4)
            =~= vstd::bytes::spec_u32_to_le_bytes(off as u32));
        lemma_step_wf(stj, ts[j], stj2);
        assert(stj2.pending == stj.pending);
        assert forall|a: int, b: int|
            0 <= a < stj2.pending.len() && 0 <= b < stj2.pending[a].1.len() implies sites_apart(
            #[trigger] stj2.pending[a].1[b],
            site,
        ) by {
            assert(stj.pending[a].1[b] + 4 <= stj.prog.bytes.len());
        }
        lemma_resolved_stays(ts, j + 1, stj2, site, off);
        assert(spec_compile_from(ts, j, stj) == Ok::<AsmV, CompileErrorV>(st_end));
        assert(spec_compile_from(ts, j + 1, stj2) == Ok::<AsmV, CompileErrorV>(st_end));
    }
}

} // verus!
