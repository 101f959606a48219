//! A character-level scanner over source text: one character at a time, one
//! character of lookahead, and bulk consumption of a run of characters
//! matching a predicate. It knows nothing about tokens.

use vstd::prelude::*;

verus! {

/// Whether a character is Unicode whitespace, as `char::is_whitespace`
/// classifies it.
pub uninterp spec fn whitespace_char(c: char) -> bool;

/// Whether a character is Unicode alphabetic, as `char::is_alphabetic`
/// classifies it.
pub uninterp spec fn alphabetic_char(c: char) -> bool;

/// Whether a character is Unicode alphanumeric, as `char::is_alphanumeric`
/// classifies it.
pub uninterp spec fn alphanumeric_char(c: char) -> bool;

/// Whether a character is Unicode numeric, as `char::is_numeric`
/// classifies it.
pub uninterp spec fn numeric_char(c: char) -> bool;

/// Relies on `char::is_whitespace`: a pure classification of the character.
#[verifier::external_body]
pub(crate) fn is_whitespace_char(c: char) -> (r: bool)
    ensures
        r == whitespace_char(c),
{
    c.is_whitespace()
}

/// Relies on `char::is_alphabetic`: a pure classification of the character.
#[verifier::external_body]
pub(crate) fn is_alphabetic_char(c: char) -> (r: bool)
    ensures
        r == alphabetic_char(c),
{
    c.is_alphabetic()
}

/// Relies on `char::is_alphanumeric`: a pure classification of the
/// character.
#[verifier::external_body]
pub(crate) fn is_alphanumeric_char(c: char) -> (r: bool)
    ensures
        r == alphanumeric_char(c),
{
    c.is_alphanumeric()
}

/// Relies on `char::is_numeric`: a pure classification of the character.
#[verifier::external_body]
pub(crate) fn is_numeric_char(c: char) -> (r: bool)
    ensures
        r == numeric_char(c),
{
    c.is_numeric()
}

/// Relies on `String: FromIterator<char>` (`collect`): the characters of
/// the result are exactly the characters collected, in order.
#[verifier::external_body]
pub(crate) fn chars_to_string(v: &Vec<char>) -> (r: String)
    ensures
        r@ == v@,
{
    v.iter().collect()
}

/// Whether a character is ASCII whitespace: space, tab, line feed, form
/// feed or carriage return.
pub open spec fn ascii_whitespace(c: char) -> bool {
    c == ' ' || c == '\t' || c == '\n' || c == '\u{0C}' || c == '\r'
}

/// Whether a character is an ASCII decimal digit.
pub open spec fn ascii_digit(c: char) -> bool {
    '0' <= c && c <= '9'
}

/// How many consecutive characters of `s`, starting at `i`, satisfy `p`.
pub open spec fn scan_len(s: Seq<char>, i: int, p: spec_fn(char) -> bool) -> nat
    decreases s.len() - i,
{
    if i < 0 || i >= s.len() || !p(s[i]) {
        0
    } else {
        1 + scan_len(s, i + 1, p)
    }
}

/// `scan_len` pinned down from the outside: a stretch of characters
/// satisfying `p`, delimited on the right by the end of the text or a
/// character refusing `p`, is exactly what `scan_len` measures.
pub proof fn lemma_scan_len_pin(s: Seq<char>, i: int, e: int, p: spec_fn(char) -> bool)
    requires
        0 <= i <= e <= s.len(),
        forall|j: int| i <= j < e ==> p(s[j]),
        e < s.len() ==> !p(s[e]),
    ensures
        i + scan_len(s, i, p) == e,
    decreases e - i,
{
    if i < e {
        lemma_scan_len_pin(s, i + 1, e, p);
    }
}

/// The scanner: the text as characters, and a head position in it.
pub struct Cursor {
    pub text: Vec<char>,
    pub head: usize,
}

impl Cursor {
    /// A scanner over `input`, with the head at the first character.
    pub fn new(input: &str) -> (c: Cursor)
        ensures
            c.text@ == input@,
            c.head == 0,
    {
        let n = input.unicode_len();
        let mut text: Vec<char> = Vec::new();
        let mut i: usize = 0;
        while i < n
            invariant
                0 <= i <= n,
                n == input@.len(),
                text@ == input@.subrange(0, i as int),
            decreases n - i,
        {
            text.push(input.get_char(i));
            proof {
                assert(text@ =~= input@.subrange(0, i + 1));
            }
            i = i + 1;
        }
        proof {
            assert(text@ =~= input@);
        }
        Cursor { text, head: 0 }
    }

    /// Consume and return the character under the head, or `None` at the
    /// end of the text.
    pub fn bump(&mut self) -> (r: Option<char>)
        ensures
            final(self).text == old(self).text,
            if old(self).head < old(self).text@.len() {
                r == Some(old(self).text@[old(self).head as int]) && final(self).head == old(
                    self,
                ).head + 1
            } else {
                r is None && final(self).head == old(self).head
            },
    {
        if self.head < self.text.len() {
            let ch = self.text[self.head];
            self.head = self.head + 1;
            Some(ch)
        } else {
            None
        }
    }

    /// The character under the head, without consuming it.
    pub fn peek(&self) -> (r: Option<char>)
        ensures
            if self.head < self.text@.len() {
                r == Some(self.text@[self.head as int])
            } else {
                r is None
            },
    {
        if self.head < self.text.len() {
            Some(self.text[self.head])
        } else {
            None
        }
    }

    /// The text from the head to the end, as an owned string.
    pub fn remaining(&self) -> (r: String)
        ensures
            self.head <= self.text@.len() ==> r@ == self.text@.subrange(
                self.head as int,
                self.text@.len() as int,
            ),
            self.head > self.text@.len() ==> r@ == Seq::<char>::empty(),
    {
        let chars = self.slice_chars(
            if self.head < self.text.len() {
                self.head
            } else {
                self.text.len()
            },
            self.text.len(),
        );
        let r = chars_to_string(&chars);
        proof {
            if self.head > self.text@.len() {
                assert(r@ =~= Seq::<char>::empty());
            }
        }
        r
    }

    /// The characters of `text[start..end]`, as an owned vector.
    pub fn slice_chars(&self, start: usize, end: usize) -> (r: Vec<char>)
        requires
            start <= end <= self.text@.len(),
        ensures
            r@ == self.text@.subrange(start as int, end as int),
    {
        let mut out: Vec<char> = Vec::new();
        let mut i: usize = start;
        while i < end
            invariant
                start <= i <= end <= self.text@.len(),
                out@ == self.text@.subrange(start as int, i as int),
            decreases end - i,
        {
            out.push(self.text[i]);
            proof {
                assert(out@ =~= self.text@.subrange(start as int, i + 1));
            }
            i = i + 1;
        }
        out
    }

    /// Advance the head over every consecutive character the predicate
    /// accepts, stopping at the first it refuses or at the end of the text.
    pub fn take_while<F: Fn(char) -> bool>(&mut self, predicate: F)
        requires
            forall|c: char| #[trigger] call_requires(predicate, (c,)),
        ensures
            final(self).text == old(self).text,
            old(self).head <= final(self).head <= final(self).text@.len() || (old(self).head
                > old(self).text@.len() && final(self).head == old(self).head),
            forall|j: int|
                old(self).head <= j < final(self).head ==> call_ensures(
                    predicate,
                    (final(self).text@[j],),
                    true,
                ),
            final(self).head < final(self).text@.len() && old(self).head <= final(self).head
                ==> call_ensures(predicate, (final(self).text@[final(self).head as int],), false),
    {
        loop
            invariant
                self.text == old(self).text,
                forall|c: char| #[trigger] call_requires(predicate, (c,)),
                old(self).head <= self.head <= self.text@.len() || (old(self).head
                    > old(self).text@.len() && self.head == old(self).head),
                forall|j: int|
                    old(self).head <= j < self.head ==> call_ensures(
                        predicate,
                        (self.text@[j],),
                        true,
                    ),
            decreases self.text@.len() - self.head,
        {
            let ch = match self.peek() {
                Some(ch) => ch,
                None => {
                    return ;
                },
            };
            if !predicate(ch) {
                return ;
            }
            let _ = self.bump();
        }
    }
}

} // verus!
