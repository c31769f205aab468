//! Fixed-size byte encodings of the machine's value types.
//!
//! Integers are stored as the eight bytes of their 64-bit two's complement
//! representation, in the byte order of the machine the library runs on
//! (`vstd::endian::endianness()`); a boolean is a single byte, zero for false.

use vstd::prelude::*;
use vstd::bytes::{spec_u64_to_le_bytes, spec_u64_from_le_bytes, lemma_auto_spec_u64_to_from_le_bytes};
use vstd::endian::{endianness, Endian};

verus! {

/// The eight bytes of the 64-bit word `w`, in the machine's byte order.
pub open spec fn word_bytes(w: u64) -> Seq<u8> {
    match endianness() {
        Endian::Little => spec_u64_to_le_bytes(w),
        Endian::Big => spec_u64_to_le_bytes(w).reverse(),
    }
}

/// The 64-bit word whose bytes, in the machine's byte order, are `s`.
pub open spec fn word_value(s: Seq<u8>) -> u64 {
    match endianness() {
        Endian::Little => spec_u64_from_le_bytes(s),
        Endian::Big => spec_u64_from_le_bytes(s.reverse()),
    }
}

/// Decoding the bytes of a word gives the word back.
pub proof fn lemma_word_value_of_bytes(w: u64)
    ensures
        word_bytes(w).len() == 8,
        word_value(word_bytes(w)) == w,
{
    lemma_auto_spec_u64_to_from_le_bytes();
    let s = spec_u64_to_le_bytes(w);
    assert(s.reverse().reverse() =~= s);
}

/// Encoding the word that eight bytes decode to gives those bytes back.
pub proof fn lemma_word_bytes_of_value(s: Seq<u8>)
    requires
        s.len() == 8,
    ensures
        word_bytes(word_value(s)) == s,
{
    lemma_auto_spec_u64_to_from_le_bytes();
    assert(s.reverse().reverse() =~= s);
    assert(s.reverse().len() == 8);
}

/// `i64::to_ne_bytes`: the two's complement bytes of `x` in the machine's byte order.
#[verifier::external_body]
fn i64_to_ne_bytes(x: i64) -> (out: [u8; 8])
    ensures
        out@ == word_bytes(x as u64),
{
    x.to_ne_bytes()
}

/// `i64::from_ne_bytes`: the `i64` whose two's complement bytes, in the machine's
/// byte order, are `b`.
#[verifier::external_body]
fn i64_from_ne_bytes(b: [u8; 8]) -> (out: i64)
    ensures
        out == word_value(b@) as i64,
{
    i64::from_ne_bytes(b)
}

/// `isize::to_ne_bytes` on a 64-bit target: the two's complement bytes of `x`
/// in the machine's byte order.
#[verifier::external_body]
fn isize_to_ne_bytes(x: isize) -> (out: [u8; 8])
    ensures
        out@ == word_bytes(x as u64),
{
    x.to_ne_bytes()
}

/// `isize::from_ne_bytes` on a 64-bit target.
#[verifier::external_body]
fn isize_from_ne_bytes(b: [u8; 8]) -> (out: isize)
    ensures
        out == word_value(b@) as isize,
{
    isize::from_ne_bytes(b)
}

/// `usize::to_ne_bytes` on a 64-bit target: the bytes of `x` in the machine's
/// byte order.
#[verifier::external_body]
fn usize_to_ne_bytes(x: usize) -> (out: [u8; 8])
    ensures
        out@ == word_bytes(x as u64),
{
    x.to_ne_bytes()
}

/// `usize::from_ne_bytes` on a 64-bit target.
#[verifier::external_body]
fn usize_from_ne_bytes(b: [u8; 8]) -> (out: usize)
    ensures
        out == word_value(b@) as usize,
{
    usize::from_ne_bytes(b)
}

/// A value with a fixed-size byte encoding of `S` bytes.
pub trait Byteable<const S: usize>: Sized {
    /// The bytes that `to` gives for this value.
    spec fn encoding(self) -> Seq<u8>;

    /// The value that `from` gives for the bytes `bytes`.
    spec fn decoding(bytes: Seq<u8>) -> Self;

    /// Encodes the value.
    fn to(self) -> (out: [u8; S])
        ensures
            out@ == self.encoding(),
    ;

    /// Decodes a value.
    fn from(input: [u8; S]) -> (out: Self)
        ensures
            out == Self::decoding(input@),
    ;

    /// Every value is encoded in exactly `S` bytes, and decoding its encoding
    /// gives the value back.
    proof fn lemma_decode_encode(self)
        ensures
            self.encoding().len() == S,
            Self::decoding(self.encoding()) == self,
    ;
}

impl Byteable<8> for isize {
    open spec fn encoding(self) -> Seq<u8> {
        word_bytes(self as u64)
    }

    open spec fn decoding(bytes: Seq<u8>) -> isize {
        word_value(bytes) as isize
    }

    fn to(self) -> (out: [u8; 8]) {
        isize_to_ne_bytes(self)
    }

    fn from(input: [u8; 8]) -> (out: isize) {
        isize_from_ne_bytes(input)
    }

    proof fn lemma_decode_encode(self) {
        lemma_word_value_of_bytes(self as u64);
        let x = self;
        assert((x as u64) as isize == x) by (bit_vector);
    }
}

impl Byteable<8> for i64 {
    open spec fn encoding(self) -> Seq<u8> {
        word_bytes(self as u64)
    }

    open spec fn decoding(bytes: Seq<u8>) -> i64 {
        word_value(bytes) as i64
    }

    fn to(self) -> (out: [u8; 8]) {
        i64_to_ne_bytes(self)
    }

    fn from(input: [u8; 8]) -> (out: i64) {
        i64_from_ne_bytes(input)
    }

    proof fn lemma_decode_encode(self) {
        lemma_word_value_of_bytes(self as u64);
        let x = self;
        assert((x as u64) as i64 == x) by (bit_vector);
    }
}

impl Byteable<8> for usize {
    open spec fn encoding(self) -> Seq<u8> {
        word_bytes(self as u64)
    }

    open spec fn decoding(bytes: Seq<u8>) -> usize {
        word_value(bytes) as usize
    }

    fn to(self) -> (out: [u8; 8]) {
        usize_to_ne_bytes(self)
    }

    fn from(input: [u8; 8]) -> (out: usize) {
        usize_from_ne_bytes(input)
    }

    proof fn lemma_decode_encode(self) {
        lemma_word_value_of_bytes(self as u64);
        let x = self;
        assert((x as u64) as usize == x) by (bit_vector);
    }
}

impl Byteable<1> for bool {
    open spec fn encoding(self) -> Seq<u8> {
        seq![if self { 1u8 } else { 0u8 }]
    }

    open spec fn decoding(bytes: Seq<u8>) -> bool {
        bytes[0] != 0
    }

    fn to(self) -> (out: [u8; 1]) {
        let byte: u8 = if self { 1 } else { 0 };
        let out = [byte];
        assert(out@ =~= seq![byte]);
        out
    }

    fn from(input: [u8; 1]) -> (out: bool) {
        input[0] != 0
    }

    proof fn lemma_decode_encode(self) {
    }
}

} // verus!
