//! The tagged-value codec.
//!
//! Every runtime value is packed into one 64-bit machine word whose low bits
//! carry a type tag and whose remaining bits carry the payload or a heap
//! address.  The layout, low bits on the right:
//!
//! ```text
//! XXXXXXXX....XXXXXXXXXXXXXX00  integer (62-bit two's-complement payload)
//! 00000000....XXXXXXXX00001111  character (code point in bits 8..15)
//! 00000000....000000000X0011111  boolean (payload in bit 7)
//! 00000000....00000000000101111  nil (one reserved pattern)
//! XXXXXXXX....XXXXXXXXXXXXX001  pair (8-byte-aligned heap address)
//! XXXXXXXX....XXXXXXXXXXXXX101  symbol (8-byte-aligned heap address)
//! ```
//!
//! Words are handled as unsigned 64-bit patterns internally; the signed view
//! used at the native-call boundary is bridged by `word_bits` / `bits_word`.

use vstd::prelude::*;

verus! {

/// A raw machine word as it crosses the native-call boundary.
pub type Word = i64;

pub const K_CHAR_TAG: u64 = 0x0f;
pub const K_CHAR_MASK: u64 = 0xff;
pub const K_CHAR_SHIFT: u64 = 8;

pub const K_BOOL_TAG: u64 = 0x1f;
pub const K_BOOL_MASK: u64 = 0x80;
pub const K_BOOL_SHIFT: u64 = 7;

pub const K_NIL_VALUE: u64 = 0x2f;

/// Largest encodable integer: 2^61 - 1.
pub const K_INTEGER_MAX: i64 = 0x1fff_ffff_ffff_ffff;
/// Smallest encodable integer: -(2^61).
pub const K_INTEGER_MIN: i64 = -0x2000_0000_0000_0000;
pub const K_INTEGER_SHIFT: u64 = 2;
pub const K_INTEGER_MASK: u64 = 0x03;
pub const K_INTEGER_TAG: u64 = 0x00;

pub const K_PAIR_TAG: u64 = 0x1;
pub const K_HEAP_TAG_MASK: u64 = 0x7;
pub const K_HEAP_PTR_MASK: u64 = 0xffff_ffff_ffff_fff8;
pub const K_SYMBOL_TAG: u64 = 0x5;

/// The signed (two's-complement) reading of a 64-bit pattern.
pub open spec fn as_signed(w: u64) -> int {
    if w < 0x8000_0000_0000_0000 {
        w as int
    } else {
        w as int - 0x1_0000_0000_0000_0000
    }
}

/// The 64-bit pattern of a signed machine word.
pub open spec fn word_bits(x: i64) -> u64 {
    if x >= 0 {
        x as u64
    } else {
        (x + 0x1_0000_0000_0000_0000) as u64
    }
}

/// The signed machine word with a given 64-bit pattern.
pub open spec fn bits_word(w: u64) -> i64 {
    as_signed(w) as i64
}

pub open spec fn is_integer_word(w: u64) -> bool {
    w & K_INTEGER_MASK == K_INTEGER_TAG
}

pub open spec fn is_char_word(w: u64) -> bool {
    w & K_CHAR_MASK == K_CHAR_TAG
}

pub open spec fn is_bool_word(w: u64) -> bool {
    w & K_BOOL_TAG == K_BOOL_TAG
}

pub open spec fn is_nil_word(w: u64) -> bool {
    w == K_NIL_VALUE
}

pub open spec fn is_pair_word(w: u64) -> bool {
    w & K_HEAP_TAG_MASK == K_PAIR_TAG
}

pub open spec fn is_symbol_word(w: u64) -> bool {
    w & K_HEAP_TAG_MASK == K_SYMBOL_TAG
}

/// The word that encodes an in-range integer: the payload shifted left by
/// two, as a two's-complement pattern.
pub open spec fn encode_integer_word(v: i64) -> u64 {
    if v >= 0 {
        (4 * v) as u64
    } else {
        (4 * v + 0x1_0000_0000_0000_0000) as u64
    }
}

/// The integer payload of a word: an arithmetic shift right by two.
pub open spec fn decode_integer_word(w: u64) -> i64 {
    (as_signed(w) / 4) as i64
}

/// The word that encodes a character.
pub open spec fn encode_char_word(c: char) -> u64 {
    ((c as u64) << 8) | K_CHAR_TAG
}

/// The character a char-tagged word decodes to (its bits 8..15).
pub open spec fn decode_char_word(w: u64) -> char {
    (((w >> 8) & 0xff) as u8) as char
}

/// The word that encodes a boolean.
pub open spec fn encode_bool_word(b: bool) -> u64 {
    if b {
        0x9f
    } else {
        0x1f
    }
}

/// A heap cons cell: two tagged values.
#[derive(Debug, Clone, Copy)]
pub struct Pair {
    pub car: LispValue,
    pub cdr: LispValue,
}

/// A heap symbol record, holding the symbol's name.
#[derive(Debug, Clone)]
pub struct Symbol {
    pub name: String,
}

/// One tagged machine word.  Its abstract value is the 64-bit pattern.
#[derive(Debug, Clone, Copy, PartialEq, Eq, Structural)]
pub struct LispValue(u64);

impl View for LispValue {
    type V = u64;

    closed spec fn view(&self) -> u64 {
        self.0
    }
}

impl LispValue {
    /// Tags an 8-byte-aligned heap address as a pair.
    pub fn from_pair_pointer(addr: u64) -> (r: Self)
        requires
            addr & K_HEAP_TAG_MASK == 0,
        ensures
            r@ == addr | K_PAIR_TAG,
    {
        LispValue(addr | K_PAIR_TAG)
    }

    pub fn is_pair(&self) -> (r: bool)
        ensures
            r == is_pair_word(self@),
    {
        (self.0 & K_HEAP_TAG_MASK) == K_PAIR_TAG
    }

    /// Tags an 8-byte-aligned heap address as a symbol.
    pub fn from_symbol_pointer(addr: u64) -> (r: Self)
        requires
            addr & K_HEAP_TAG_MASK == 0,
        ensures
            r@ == addr | K_SYMBOL_TAG,
    {
        LispValue(addr | K_SYMBOL_TAG)
    }

    pub fn is_symbol(&self) -> (r: bool)
        ensures
            r == is_symbol_word(self@),
    {
        (self.0 & K_HEAP_TAG_MASK) == K_SYMBOL_TAG
    }

    /// If this value is a symbol, the untagged heap address.
    pub fn as_symbol_pointer(&self) -> (r: Option<u64>)
        ensures
            r == if is_symbol_word(self@) {
                Some(self@ & K_HEAP_PTR_MASK)
            } else {
                None::<u64>
            },
    {
        if self.is_symbol() {
            Some(self.0 & K_HEAP_PTR_MASK)
        } else {
            None
        }
    }

    /// Wraps a raw word returned by compiled code, without interpretation.
    pub fn from_raw_word(word: Word) -> (r: Self)
        ensures
            r@ == word_bits(word),
    {
        if word >= 0 {
            LispValue(word as u64)
        } else {
            LispValue(((word - i64::MIN) as u64) + 0x8000_0000_0000_0000)
        }
    }

    /// Encodes an integer.  The payload range is checked by the caller.
    pub fn from_integer(value: Word) -> (r: Self)
        requires
            K_INTEGER_MIN <= value <= K_INTEGER_MAX,
        ensures
            r@ == encode_integer_word(value),
    {
        if value >= 0 {
            LispValue((value as u64) * 4)
        } else {
            LispValue(((value - K_INTEGER_MIN) as u64) * 4 + 0x8000_0000_0000_0000)
        }
    }

    pub fn from_char(value: char) -> (r: Self)
        ensures
            r@ == encode_char_word(value),
    {
        LispValue(((value as u64) << 8) | K_CHAR_TAG)
    }

    pub fn from_bool(value: bool) -> (r: Self)
        ensures
            r@ == encode_bool_word(value),
    {
        if value {
            LispValue(0x9f)
        } else {
            LispValue(0x1f)
        }
    }

    pub fn nil() -> (r: Self)
        ensures
            r@ == K_NIL_VALUE,
    {
        LispValue(K_NIL_VALUE)
    }

    pub fn true_val() -> (r: Self)
        ensures
            r@ == encode_bool_word(true),
    {
        Self::from_bool(true)
    }

    pub fn false_val() -> (r: Self)
        ensures
            r@ == encode_bool_word(false),
    {
        Self::from_bool(false)
    }

    pub fn is_integer(&self) -> (r: bool)
        ensures
            r == is_integer_word(self@),
    {
        (self.0 & K_INTEGER_MASK) == K_INTEGER_TAG
    }

    pub fn is_char(&self) -> (r: bool)
        ensures
            r == is_char_word(self@),
    {
        (self.0 & K_CHAR_MASK) == K_CHAR_TAG
    }

    pub fn is_bool(&self) -> (r: bool)
        ensures
            r == is_bool_word(self@),
    {
        (self.0 & K_BOOL_TAG) == K_BOOL_TAG
    }

    pub fn is_nil(&self) -> (r: bool)
        ensures
            r == is_nil_word(self@),
    {
        self.0 == K_NIL_VALUE
    }

    /// Decodes the integer payload; `None` when the tag does not match.
    pub fn as_integer(&self) -> (r: Option<Word>)
        ensures
            r == if is_integer_word(self@) {
                Some(decode_integer_word(self@))
            } else {
                None::<Word>
            },
    {
        if self.is_integer() {
            let w = self.0;
            if w < 0x8000_0000_0000_0000 {
                Some((w / 4) as i64)
            } else {
                let high_payload: u64 = (w - 0x8000_0000_0000_0000) / 4;
                proof {
                    vstd::arithmetic::div_mod::lemma_hoist_over_denominator(
                        as_signed(w),
                        0x2000_0000_0000_0000,
                        4,
                    );
                }
                Some((high_payload as i64) + K_INTEGER_MIN)
            }
        } else {
            None
        }
    }

    /// Decodes the character payload; `None` when the tag does not match.
    pub fn as_char(&self) -> (r: Option<char>)
        ensures
            r == if is_char_word(self@) {
                Some(decode_char_word(self@))
            } else {
                None::<char>
            },
    {
        if self.is_char() {
            let code: u8 = ((self.0 >> 8) & 0xff) as u8;
            Some(code as char)
        } else {
            None
        }
    }

    /// Decodes the boolean payload; `None` when the tag does not match.
    pub fn as_bool(&self) -> (r: Option<bool>)
        ensures
            r == if is_bool_word(self@) {
                Some(self@ & K_BOOL_MASK != 0)
            } else {
                None::<bool>
            },
    {
        if self.is_bool() {
            Some((self.0 & K_BOOL_MASK) != 0)
        } else {
            None
        }
    }

    /// The raw word, as the signed type used at the native-call boundary.
    pub fn as_raw_word(&self) -> (r: Word)
        ensures
            r == bits_word(self@),
    {
        if self.0 < 0x8000_0000_0000_0000 {
            self.0 as i64
        } else {
            ((self.0 - 0x8000_0000_0000_0000) as i64) + i64::MIN
        }
    }

    /// If this value is a pair, the untagged heap address.
    pub fn as_pair_pointer(&self) -> (r: Option<u64>)
        ensures
            r == if is_pair_word(self@) {
                Some(self@ & K_HEAP_PTR_MASK)
            } else {
                None::<u64>
            },
    {
        if self.is_pair() {
            Some(self.0 & K_HEAP_PTR_MASK)
        } else {
            None
        }
    }
}

/// Encoding an in-range integer and decoding the word gives the integer back.
pub proof fn lemma_integer_round_trip(v: i64)
    requires
        K_INTEGER_MIN <= v <= K_INTEGER_MAX,
    ensures
        is_integer_word(encode_integer_word(v)),
        decode_integer_word(encode_integer_word(v)) == v,
{
    let w = encode_integer_word(v);
    lemma_integer_word_multiple_of_four(v);
    assert(w % 4 == 0 ==> w & 3 == 0) by (bit_vector);
    vstd::arithmetic::div_mod::lemma_div_multiples_vanish(v as int, 4);
    assert(as_signed(w) == 4 * v);
}

/// The word of an in-range integer is a multiple of four (the two tag bits
/// are clear).
proof fn lemma_integer_word_multiple_of_four(v: i64)
    requires
        K_INTEGER_MIN <= v <= K_INTEGER_MAX,
    ensures
        encode_integer_word(v) % 4 == 0,
{
    if v >= 0 {
        vstd::arithmetic::div_mod::lemma_mod_multiples_basic(v as int, 4);
    } else {
        vstd::arithmetic::div_mod::lemma_mod_multiples_basic(v + 0x4000_0000_0000_0000, 4);
        assert(4 * v + 0x1_0000_0000_0000_0000 == (v + 0x4000_0000_0000_0000) * 4);
    }
}

/// Encoding a character in the supported range and decoding the word gives
/// the character back.
pub proof fn lemma_char_round_trip(c: char)
    requires
        (c as int) < 256,
    ensures
        is_char_word(encode_char_word(c)),
        decode_char_word(encode_char_word(c)) == c,
{
    let x = c as u64;
    assert(x < 256 ==> ((x << 8) | 0x0f) & 0xff == 0x0f) by (bit_vector);
    assert(x < 256 ==> ((((x << 8) | 0x0f) >> 8) & 0xff) == x) by (bit_vector);
}

/// Encoding a boolean and reading the payload bit of the word gives the
/// boolean back.
pub proof fn lemma_bool_round_trip(b: bool)
    ensures
        is_bool_word(encode_bool_word(b)),
        (encode_bool_word(b) & K_BOOL_MASK != 0) == b,
{
    assert(0x9fu64 & 0x1f == 0x1f && 0x9fu64 & 0x80 != 0) by (bit_vector);
    assert(0x1fu64 & 0x1f == 0x1f && 0x1fu64 & 0x80 == 0) by (bit_vector);
}

/// Tagging an aligned address as a pair and masking the tag off gives the
/// address back.
pub proof fn lemma_pair_pointer_round_trip(addr: u64)
    requires
        addr & K_HEAP_TAG_MASK == 0,
    ensures
        is_pair_word(addr | K_PAIR_TAG),
        (addr | K_PAIR_TAG) & K_HEAP_PTR_MASK == addr,
{
    assert(addr & 0x7 == 0 ==> (addr | 0x1) & 0x7 == 0x1 && (addr | 0x1)
        & 0xffff_ffff_ffff_fff8 == addr) by (bit_vector);
}

/// Tagging an aligned address as a symbol and masking the tag off gives the
/// address back.
pub proof fn lemma_symbol_pointer_round_trip(addr: u64)
    requires
        addr & K_HEAP_TAG_MASK == 0,
    ensures
        is_symbol_word(addr | K_SYMBOL_TAG),
        (addr | K_SYMBOL_TAG) & K_HEAP_PTR_MASK == addr,
{
    assert(addr & 0x7 == 0 ==> (addr | 0x5) & 0x7 == 0x5 && (addr | 0x5)
        & 0xffff_ffff_ffff_fff8 == addr) by (bit_vector);
}

/// The signed and unsigned readings of a word are inverse to one another.
pub proof fn lemma_word_bits_round_trip(x: i64)
    ensures
        bits_word(word_bits(x)) == x,
{
}

/// The unsigned and signed readings of a word are inverse to one another.
pub proof fn lemma_bits_word_round_trip(w: u64)
    ensures
        word_bits(bits_word(w)) == w,
{
}

/// An encoded integer satisfies no tag check other than the integer one.
pub proof fn lemma_integer_tag_disjoint(v: i64)
    requires
        K_INTEGER_MIN <= v <= K_INTEGER_MAX,
    ensures
        is_integer_word(encode_integer_word(v)),
        !is_char_word(encode_integer_word(v)),
        !is_bool_word(encode_integer_word(v)),
        !is_nil_word(encode_integer_word(v)),
        !is_pair_word(encode_integer_word(v)),
        !is_symbol_word(encode_integer_word(v)),
{
    let w = encode_integer_word(v);
    lemma_integer_word_multiple_of_four(v);
    assert(w % 4 == 0 ==> w & 3 == 0 && w & 0xff != 0x0f && w & 0x1f != 0x1f && w != 0x2f && w
        & 0x7 != 0x1 && w & 0x7 != 0x5) by (bit_vector);
}

/// An encoded character satisfies no tag check other than the character one.
pub proof fn lemma_char_tag_disjoint(c: char)
    ensures
        is_char_word(encode_char_word(c)),
        !is_integer_word(encode_char_word(c)),
        !is_bool_word(encode_char_word(c)),
        !is_nil_word(encode_char_word(c)),
        !is_pair_word(encode_char_word(c)),
        !is_symbol_word(encode_char_word(c)),
{
    let x = c as u64;
    assert({
        let w = (x << 8) | 0x0f;
        w & 0xff == 0x0f && w & 3 != 0 && w & 0x1f != 0x1f && w != 0x2f && w & 0x7 != 0x1 && w
            & 0x7 != 0x5
    }) by (bit_vector);
}

/// An encoded boolean satisfies no tag check other than the boolean one.
pub proof fn lemma_bool_tag_disjoint(b: bool)
    ensures
        is_bool_word(encode_bool_word(b)),
        !is_integer_word(encode_bool_word(b)),
        !is_char_word(encode_bool_word(b)),
        !is_nil_word(encode_bool_word(b)),
        !is_pair_word(encode_bool_word(b)),
        !is_symbol_word(encode_bool_word(b)),
{
    assert(0x9fu64 & 0x1f == 0x1f && 0x9fu64 & 3 != 0 && 0x9fu64 & 0xff != 0x0f && 0x9fu64 & 0x7
        != 0x1 && 0x9fu64 & 0x7 != 0x5) by (bit_vector);
    assert(0x1fu64 & 0x1f == 0x1f && 0x1fu64 & 3 != 0 && 0x1fu64 & 0xff != 0x0f && 0x1fu64 & 0x7
        != 0x1 && 0x1fu64 & 0x7 != 0x5) by (bit_vector);
}

/// The nil word satisfies no tag check other than the nil one.
pub proof fn lemma_nil_tag_disjoint()
    ensures
        is_nil_word(K_NIL_VALUE),
        !is_integer_word(K_NIL_VALUE),
        !is_char_word(K_NIL_VALUE),
        !is_bool_word(K_NIL_VALUE),
        !is_pair_word(K_NIL_VALUE),
        !is_symbol_word(K_NIL_VALUE),
{
    assert(0x2fu64 & 3 != 0 && 0x2fu64 & 0xff != 0x0f && 0x2fu64 & 0x1f != 0x1f && 0x2fu64 & 0x7
        != 0x1 && 0x2fu64 & 0x7 != 0x5) by (bit_vector);
}

/// A tagged pair pointer satisfies no tag check other than the pair one.
pub proof fn lemma_pair_tag_disjoint(addr: u64)
    requires
        addr & K_HEAP_TAG_MASK == 0,
    ensures
        is_pair_word(addr | K_PAIR_TAG),
        !is_integer_word(addr | K_PAIR_TAG),
        !is_char_word(addr | K_PAIR_TAG),
        !is_bool_word(addr | K_PAIR_TAG),
        !is_nil_word(addr | K_PAIR_TAG),
        !is_symbol_word(addr | K_PAIR_TAG),
{
    assert(addr & 0x7 == 0 ==> {
        let w = addr | 0x1;
        w & 0x7 == 0x1 && w & 3 != 0 && w & 0xff != 0x0f && w & 0x1f != 0x1f && w != 0x2f && w
            & 0x7 != 0x5
    }) by (bit_vector);
}

/// A tagged symbol pointer satisfies no tag check other than the symbol one.
pub proof fn lemma_symbol_tag_disjoint(addr: u64)
    requires
        addr & K_HEAP_TAG_MASK == 0,
    ensures
        is_symbol_word(addr | K_SYMBOL_TAG),
        !is_integer_word(addr | K_SYMBOL_TAG),
        !is_char_word(addr | K_SYMBOL_TAG),
        !is_bool_word(addr | K_SYMBOL_TAG),
        !is_nil_word(addr | K_SYMBOL_TAG),
        !is_pair_word(addr | K_SYMBOL_TAG),
{
    assert(addr & 0x7 == 0 ==> {
        let w = addr | 0x5;
        w & 0x7 == 0x5 && w & 3 != 0 && w & 0xff != 0x0f && w & 0x1f != 0x1f && w != 0x2f && w
            & 0x7 != 0x1
    }) by (bit_vector);
}

} // verus!
