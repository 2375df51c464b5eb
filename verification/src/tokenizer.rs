//! The tokenizer: turns raw text into a sequence of lexical tokens.
//!
//! Atoms are decimal integers, symbols, and character literals of the form
//! `#\<single char>` or `#\space`, `#\newline`, `#\tab`.  Whitespace
//! separates tokens; parentheses delimit lists.  A decimal literal that does
//! not fit in a 64-bit word, or an unknown character name, is reported as an
//! error rather than a token.

use vstd::prelude::*;

verus! {

/// The tokens the parser receives.
#[derive(Debug, PartialEq, Clone)]
pub enum Token {
    LParen,
    RParen,
    Integer(i64),
    Symbol(String),
    Char(char),
}

/// Whitespace, for this grammar: blank, tab, newline, carriage return.
pub open spec fn is_space_char(c: char) -> bool {
    c == ' ' || c == '\t' || c == '\n' || c == '\r'
}

/// A decimal digit.
pub open spec fn is_digit_char(c: char) -> bool {
    48 <= (c as int) && (c as int) <= 57
}

/// A character that ends a symbol or character-name run.
pub open spec fn is_delimiter_char(c: char) -> bool {
    is_space_char(c) || c == '(' || c == ')'
}

/// The numeric value of a decimal digit.
pub open spec fn digit_val(c: char) -> int {
    (c as int) - 48
}

/// The first position at or after `i` holding a non-whitespace character
/// (or the end of the text).
pub open spec fn skip_ws_idx(s: Seq<char>, i: nat) -> nat
    decreases s.len() - i,
{
    if i < s.len() && is_space_char(s[i as int]) {
        skip_ws_idx(s, (i + 1) as nat)
    } else {
        i
    }
}

/// The first position at or after `i` holding a non-digit character
/// (or the end of the text).
pub open spec fn digits_end(s: Seq<char>, i: nat) -> nat
    decreases s.len() - i,
{
    if i < s.len() && is_digit_char(s[i as int]) {
        digits_end(s, (i + 1) as nat)
    } else {
        i
    }
}

/// The first position at or after `i` holding a delimiter
/// (or the end of the text).
pub open spec fn token_end(s: Seq<char>, i: nat) -> nat
    decreases s.len() - i,
{
    if i < s.len() && !is_delimiter_char(s[i as int]) {
        token_end(s, (i + 1) as nat)
    } else {
        i
    }
}

/// The value of the decimal digit run `s[j..i]`, read left to right.
pub open spec fn digits_value(s: Seq<char>, j: nat, i: nat) -> int
    decreases i,
{
    if i <= j {
        0
    } else {
        10 * digits_value(s, j, (i - 1) as nat) + digit_val(s[i - 1])
    }
}

/// The correct outcome of reading one character literal whose name run
/// (the text after `#\`) is `name`.
pub open spec fn char_token_matches(name: Seq<char>, r: Result<Option<Token>, String>) -> bool {
    if name.len() == 1 {
        r == Ok::<Option<Token>, String>(Some(Token::Char(name[0])))
    } else if name == "space"@ {
        r == Ok::<Option<Token>, String>(Some(Token::Char(' ')))
    } else if name == "newline"@ {
        r == Ok::<Option<Token>, String>(Some(Token::Char('\n')))
    } else if name == "tab"@ {
        r == Ok::<Option<Token>, String>(Some(Token::Char('\t')))
    } else {
        r is Err
    }
}

/// The correct outcome of one tokenizer step: starting at `start` in the
/// text `s`, the result is `r` and the position afterwards is `end`.
pub open spec fn next_result_matches(
    s: Seq<char>,
    start: nat,
    r: Result<Option<Token>, String>,
    end: nat,
) -> bool {
    let j = skip_ws_idx(s, start);
    if j >= s.len() {
        r == Ok::<Option<Token>, String>(None) && end == j
    } else if s[j as int] == '(' {
        r == Ok::<Option<Token>, String>(Some(Token::LParen)) && end == j + 1
    } else if s[j as int] == ')' {
        r == Ok::<Option<Token>, String>(Some(Token::RParen)) && end == j + 1
    } else if is_digit_char(s[j as int]) {
        let e = digits_end(s, j);
        let v = digits_value(s, j, e);
        end == e && if v <= i64::MAX {
            r == Ok::<Option<Token>, String>(Some(Token::Integer(v as i64)))
        } else {
            r is Err
        }
    } else if s[j as int] == '#' && j + 1 < s.len() && s[j as int + 1] == '\\' {
        let e = token_end(s, (j + 2) as nat);
        end == e && char_token_matches(s.subrange(j as int + 2, e as int), r)
    } else {
        let e = token_end(s, (j + 1) as nat);
        end == e && (r matches Ok(Some(Token::Symbol(name))) && name@ == s.subrange(
            j as int,
            e as int,
        ))
    }
}

/// Whether the character at position `i` is whitespace.
fn space_at(s: &str, i: usize) -> (r: bool)
    requires
        i < s@.len(),
    ensures
        r == is_space_char(s@[i as int]),
{
    let c = s.get_char(i);
    c == ' ' || c == '\t' || c == '\n' || c == '\r'
}

/// Whether the character at position `i` is a decimal digit.
fn digit_at(s: &str, i: usize) -> (r: bool)
    requires
        i < s@.len(),
    ensures
        r == is_digit_char(s@[i as int]),
{
    let cu = s.get_char(i) as u32;
    48 <= cu && cu <= 57
}

/// Whether the character at position `i` ends a symbol or name run.
fn delim_at(s: &str, i: usize) -> (r: bool)
    requires
        i < s@.len(),
    ensures
        r == is_delimiter_char(s@[i as int]),
{
    let c = s.get_char(i);
    c == ' ' || c == '\t' || c == '\n' || c == '\r' || c == '(' || c == ')'
}

/// The value of a digit run never decreases as the run is extended to the
/// right, and is never negative.
proof fn lemma_digits_value_nondecreasing(s: Seq<char>, j: nat, i1: nat, i2: nat)
    requires
        j <= i1 <= i2 <= s.len(),
        forall|k: int| j <= k < i2 ==> is_digit_char(#[trigger] s[k]),
    ensures
        0 <= digits_value(s, j, i1) <= digits_value(s, j, i2),
    decreases i2 - i1, i1,
{
    if i1 == i2 {
        if i1 > j {
            lemma_digits_value_nondecreasing(s, j, (i1 - 1) as nat, (i1 - 1) as nat);
        }
    } else {
        lemma_digits_value_nondecreasing(s, j, i1, (i2 - 1) as nat);
    }
}

/// The tokenizer: a cursor over the input text.
pub struct Tokenizer<'a> {
    input: &'a str,
    pos: usize,
}

impl<'a> Tokenizer<'a> {
    /// The text being tokenized.
    pub closed spec fn text(&self) -> Seq<char> {
        self.input@
    }

    /// The current position in the text.
    pub closed spec fn position(&self) -> nat {
        self.pos as nat
    }

    /// The cursor always sits inside the text.
    pub closed spec fn wf(&self) -> bool {
        self.pos <= self.input@.len()
    }

    /// Creates a new tokenizer for a given string.
    pub fn new(input: &'a str) -> (r: Self)
        ensures
            r.wf(),
            r.text() == input@,
            r.position() == 0,
    {
        Tokenizer { input, pos: 0 }
    }

    /// Yields the next token: `Ok(None)` at the end of the text, an error
    /// for a malformed literal.
    pub fn next(&mut self) -> (r: Result<Option<Token>, String>)
        requires
            old(self).wf(),
        ensures
            final(self).wf(),
            final(self).text() == old(self).text(),
            next_result_matches(old(self).text(), old(self).position(), r, final(self).position()),
            old(self).position() <= final(self).position(),
            final(self).position() <= final(self).text().len(),
            r matches Ok(Some(_)) ==> old(self).position() < final(self).position(),
    {
        self.skip_whitespace();
        let len = self.input.unicode_len();
        let j = self.pos;
        if j >= len {
            return Ok(None);
        }
        let c = self.input.get_char(j);
        if c == '(' {
            self.pos = j + 1;
            return Ok(Some(Token::LParen));
        }
        if c == ')' {
            self.pos = j + 1;
            return Ok(Some(Token::RParen));
        }
        let cu = c as u32;
        if 48 <= cu && cu <= 57 {
            return self.tokenize_number();
        }
        if c == '#' && j + 1 < len && self.input.get_char(j + 1) == '\\' {
            self.pos = j + 2;
            return self.tokenize_char();
        }
        match self.tokenize_symbol() {
            t => Ok(Some(t)),
        }
    }

    /// Consumes a run of decimal digits and returns its value, or an error
    /// when the value does not fit in a 64-bit word.
    fn tokenize_number(&mut self) -> (r: Result<Option<Token>, String>)
        requires
            old(self).wf(),
            old(self).position() < old(self).text().len(),
            is_digit_char(old(self).text()[old(self).position() as int]),
        ensures
            final(self).wf(),
            final(self).text() == old(self).text(),
            final(self).position() == digits_end(old(self).text(), old(self).position()),
            old(self).position() < final(self).position(),
            ({
                let v = digits_value(
                    old(self).text(),
                    old(self).position(),
                    digits_end(old(self).text(), old(self).position()),
                );
                if v <= i64::MAX {
                    r == Ok::<Option<Token>, String>(Some(Token::Integer(v as i64)))
                } else {
                    r is Err
                }
            }),
    {
        let ghost s = self.input@;
        let ghost j = self.pos as nat;
        let len = self.input.unicode_len();
        let start = self.pos;
        let mut e = self.pos;
        while e < len && digit_at(self.input, e)
            invariant
                self.input@ == s,
                j <= e <= len,
                len == s.len(),
                self.pos == start,
                digits_end(s, j) == digits_end(s, e as nat),
                forall|k: int| j <= k < e ==> is_digit_char(#[trigger] s[k]),
            decreases len - e,
        {
            e = e + 1;
        }
        assert(digits_end(s, e as nat) == e);
        self.pos = e;
        let mut acc: i64 = 0;
        let mut i = start;
        while i < e
            invariant
                self.input@ == s,
                s == old(self).text(),
                j == old(self).position(),
                start <= i <= e <= len,
                len == s.len(),
                self.pos == e,
                digits_end(s, j) == e,
                j == start,
                forall|k: int| j <= k < e ==> is_digit_char(#[trigger] s[k]),
                0 <= acc,
                acc == digits_value(s, j, i as nat),
            decreases e - i,
        {
            let d: i64 = ((self.input.get_char(i) as u32) - 48) as i64;
            let stepped = match acc.checked_mul(10) {
                Some(x) => x.checked_add(d),
                None => None,
            };
            match stepped {
                Some(y) => {
                    acc = y;
                },
                None => {
                    proof {
                        lemma_digits_value_nondecreasing(s, j, (i + 1) as nat, e as nat);
                    }
                    return Err("integer literal does not fit in a 64-bit word".to_owned());
                },
            }
            i = i + 1;
        }
        Ok(Some(Token::Integer(acc)))
    }

    /// Consumes a symbol run and returns it as a symbol token.
    fn tokenize_symbol(&mut self) -> (r: Token)
        requires
            old(self).wf(),
            old(self).position() < old(self).text().len(),
        ensures
            final(self).wf(),
            final(self).text() == old(self).text(),
            final(self).position() == token_end(
                old(self).text(),
                (old(self).position() + 1) as nat,
            ),
            old(self).position() < final(self).position(),
            r matches Token::Symbol(name) && name@ == old(self).text().subrange(
                old(self).position() as int,
                token_end(old(self).text(), (old(self).position() + 1) as nat) as int,
            ),
    {
        let ghost s = self.input@;
        let len = self.input.unicode_len();
        let start = self.pos;
        let mut e = self.pos + 1;
        while e < len && !delim_at(self.input, e)
            invariant
                self.input@ == s,
                start < e <= len,
                len == s.len(),
                self.pos == start,
                token_end(s, (start + 1) as nat) == token_end(s, e as nat),
            decreases len - e,
        {
            e = e + 1;
        }
        assert(token_end(s, e as nat) == e);
        self.pos = e;
        let text = self.input.substring_char(start, e);
        Token::Symbol(text.to_owned())
    }

    /// Skips over any whitespace.
    fn skip_whitespace(&mut self)
        requires
            old(self).wf(),
        ensures
            final(self).wf(),
            final(self).text() == old(self).text(),
            final(self).position() == skip_ws_idx(old(self).text(), old(self).position()),
            old(self).position() <= final(self).position(),
    {
        let ghost s = self.input@;
        let ghost j = self.pos as nat;
        let len = self.input.unicode_len();
        while self.pos < len && space_at(self.input, self.pos)
            invariant
                self.input@ == s,
                j <= self.pos <= len,
                len == s.len(),
                skip_ws_idx(s, j) == skip_ws_idx(s, self.pos as nat),
            decreases len - self.pos,
        {
            self.pos = self.pos + 1;
        }
    }

    /// Consumes a character-literal name (the text after `#\`): a single
    /// character, or one of the names `space`, `newline`, `tab`.
    fn tokenize_char(&mut self) -> (r: Result<Option<Token>, String>)
        requires
            old(self).wf(),
        ensures
            final(self).wf(),
            final(self).text() == old(self).text(),
            final(self).position() == token_end(old(self).text(), old(self).position()),
            old(self).position() <= final(self).position(),
            char_token_matches(
                old(self).text().subrange(
                    old(self).position() as int,
                    token_end(old(self).text(), old(self).position()) as int,
                ),
                r,
            ),
    {
        let ghost s = self.input@;
        let len = self.input.unicode_len();
        let start = self.pos;
        let mut e = self.pos;
        while e < len && !delim_at(self.input, e)
            invariant
                self.input@ == s,
                start <= e <= len,
                len == s.len(),
                self.pos == start,
                token_end(s, start as nat) == token_end(s, e as nat),
            decreases len - e,
        {
            e = e + 1;
        }
        assert(token_end(s, e as nat) == e);
        self.pos = e;
        let name = self.input.substring_char(start, e);
        if name.unicode_len() == 1 {
            return Ok(Some(Token::Char(name.get_char(0))));
        }
        if str_eq_str(name, "space") {
            proof {
                reveal_strlit("space");
            }
            return Ok(Some(Token::Char(' ')));
        }
        if str_eq_str(name, "newline") {
            proof {
                reveal_strlit("newline");
            }
            return Ok(Some(Token::Char('\n')));
        }
        if str_eq_str(name, "tab") {
            proof {
                reveal_strlit("tab");
            }
            return Ok(Some(Token::Char('\t')));
        }
        Err("unknown character name".to_owned())
    }
}

/// Whether two string slices hold the same characters.
pub fn str_eq_str(a: &str, b: &str) -> (r: bool)
    ensures
        r == (a@ == b@),
{
    let alen = a.unicode_len();
    let blen = b.unicode_len();
    if alen != blen {
        assert(a@ != b@) by {
            assert(a@.len() != b@.len());
        }
        return false;
    }
    let mut i: usize = 0;
    while i < alen
        invariant
            alen == a@.len(),
            blen == b@.len(),
            alen == blen,
            i <= alen,
            forall|k: int| 0 <= k < i ==> a@[k] == b@[k],
        decreases alen - i,
    {
        if a.get_char(i) != b.get_char(i) {
            return false;
        }
        i = i + 1;
    }
    proof {
        assert(a@ =~= b@);
    }
    true
}

} // verus!
