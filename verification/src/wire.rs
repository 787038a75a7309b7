//! The wire form of a token: five bytes, the offset in the first four with
//! the most significant byte first, the ordinal of the category in the last.

use crate::error::TokenizationError;
use crate::token::{Token, TokenType};
use vstd::prelude::*;

verus! {

/// Number of bytes of a token's wire form.
pub const WIRE_LEN: usize = 5;

/// The wire form of a token: the four bytes of the offset, most significant
/// first, then the ordinal of the category.
pub open spec fn wire_form(t: Token) -> Seq<u8> {
    seq![
        (t.loc / 0x100_0000) as u8,
        (t.loc / 0x1_0000 % 0x100) as u8,
        (t.loc / 0x100 % 0x100) as u8,
        (t.loc % 0x100) as u8,
        t.ty.ordinal() as u8,
    ]
}

/// The offset that the first four bytes of a wire form spell.
pub open spec fn wire_offset(w: Seq<u8>) -> nat
    recommends
        w.len() == WIRE_LEN,
{
    (w[0] * 0x100_0000 + w[1] * 0x1_0000 + w[2] * 0x100 + w[3]) as nat
}

/// The token that a wire form stands for; none where its last byte is not
/// the ordinal of a category.
pub open spec fn wire_token(w: Seq<u8>) -> Option<Token>
    recommends
        w.len() == WIRE_LEN,
{
    match TokenType::at_ordinal(w[4] as nat) {
        Some(ty) => Some(Token { loc: wire_offset(w) as u32, ty }),
        None => None,
    }
}

/// The number that the five bytes of a wire form spell, most significant
/// byte first.
pub open spec fn wire_value(w: Seq<u8>) -> nat
    recommends
        w.len() == WIRE_LEN,
{
    wire_offset(w) * 0x100 + w[4] as nat
}

/// Whether `a` and `b` agree on their first `k` bytes.
pub open spec fn same_prefix(a: Seq<u8>, b: Seq<u8>, k: int) -> bool {
    &&& 0 <= k <= a.len()
    &&& k <= b.len()
    &&& forall|i: int| 0 <= i < k ==> a[i] == b[i]
}

/// Whether `a` comes before `b` when the two are compared byte by byte: at
/// the first place where they differ `a` has the smaller byte, or `a` ends
/// there and `b` does not.
pub open spec fn lex_less(a: Seq<u8>, b: Seq<u8>) -> bool {
    exists|k: int| #[trigger]
        same_prefix(a, b, k) && k < b.len() && (k == a.len() || a[k] < b[k])
}

/// The number by which tokens are ordered and found: the offset counts
/// first, the category after it.
pub open spec fn token_key(t: Token) -> nat {
    t.loc as nat * 0x100 + t.ty.ordinal()
}

impl Token {
    /// Writes the token in its wire form.
    pub fn pack(&self) -> (w: [u8; 5])
        ensures
            w@ == wire_form(*self),
    {
        let loc: u32 = self.loc;
        let b0: u8 = (loc >> 24) as u8;
        let b1: u8 = ((loc >> 16) & 0xff) as u8;
        let b2: u8 = ((loc >> 8) & 0xff) as u8;
        let b3: u8 = (loc & 0xff) as u8;
        let b4: u8 = self.ty.to_ordinal();
        proof {
            assert(loc >> 24 == loc / 0x100_0000) by (bit_vector);
            assert((loc >> 16) & 0xff == loc / 0x1_0000 % 0x100) by (bit_vector);
            assert((loc >> 8) & 0xff == loc / 0x100 % 0x100) by (bit_vector);
            assert(loc & 0xff == loc % 0x100) by (bit_vector);
        }
        let w: [u8; 5] = [b0, b1, b2, b3, b4];
        assert(w@ =~= wire_form(*self));
        w
    }

    /// Reads a token from its wire form. Fails where the last byte is not the
    /// ordinal of a category.
    pub fn unpack(w: &[u8; 5]) -> (r: Result<Token, TokenizationError>)
        ensures
            r == match wire_token(w@) {
                Some(t) => Ok::<Token, TokenizationError>(t),
                None => Err(TokenizationError::InvalidCategory),
            },
    {
        let b0: u8 = w[0];
        let b1: u8 = w[1];
        let b2: u8 = w[2];
        let b3: u8 = w[3];
        let loc: u32 = ((b0 as u32) << 24) | ((b1 as u32) << 16) | ((b2 as u32) << 8) | (b3 as u32);
        proof {
            assert((((b0 as u32) << 24) | ((b1 as u32) << 16) | ((b2 as u32) << 8) | (b3 as u32))
                == b0 * 0x100_0000 + b1 * 0x1_0000 + b2 * 0x100 + b3) by (bit_vector);
        }
        match TokenType::from_ordinal(w[4]) {
            Some(ty) => Ok(Token { loc, ty }),
            None => Err(TokenizationError::InvalidCategory),
        }
    }

    /// The token's key.
    pub fn key(&self) -> (k: u64)
        ensures
            k == token_key(*self),
    {
        self.loc as u64 * 0x100 + self.ty.to_ordinal() as u64
    }
}

/// The number that a wire form spells.
pub fn wire_key(w: &[u8; 5]) -> (k: u64)
    ensures
        k == wire_value(w@),
{
    let b0: u64 = w[0] as u64;
    let b1: u64 = w[1] as u64;
    let b2: u64 = w[2] as u64;
    let b3: u64 = w[3] as u64;
    let b4: u64 = w[4] as u64;
    (((b0 * 0x100 + b1) * 0x100 + b2) * 0x100 + b3) * 0x100 + b4
}

/// The number that a token's wire form spells is the token's key.
pub proof fn lemma_wire_value_of_token(t: Token)
    ensures
        wire_form(t).len() == WIRE_LEN,
        wire_offset(wire_form(t)) == t.loc,
        wire_value(wire_form(t)) == token_key(t),
{
    TokenType::lemma_ordinals();
    let loc = t.loc;
    assert(loc == (loc / 0x100_0000) * 0x100_0000 + (loc / 0x1_0000 % 0x100) * 0x1_0000 + (loc
        / 0x100 % 0x100) * 0x100 + loc % 0x100) by (bit_vector);
    assert(loc / 0x100_0000 < 0x100) by (bit_vector);
}

/// Reading what was written gives the token back.
pub proof fn lemma_unpack_pack(t: Token)
    ensures
        wire_token(wire_form(t)) == Some(t),
{
    TokenType::lemma_ordinals();
    lemma_wire_value_of_token(t);
}

/// Writing what was read gives the bytes back: no two wire forms stand for
/// one token.
pub proof fn lemma_pack_unpack(w: Seq<u8>)
    requires
        w.len() == WIRE_LEN,
        wire_token(w) is Some,
    ensures
        wire_form(wire_token(w).unwrap()) == w,
{
    TokenType::lemma_ordinals();
    let t = wire_token(w).unwrap();
    let (b0, b1, b2, b3) = (w[0], w[1], w[2], w[3]);
    let loc: u32 = t.loc;
    assert(loc == b0 * 0x100_0000 + b1 * 0x1_0000 + b2 * 0x100 + b3);
    assert(loc == b0 * 0x100_0000 + b1 * 0x1_0000 + b2 * 0x100 + b3 ==> loc / 0x100_0000 == b0
        && loc / 0x1_0000 % 0x100 == b1 && loc / 0x100 % 0x100 == b2 && loc % 0x100 == b3)
        by (bit_vector);
    assert(wire_form(t) =~= w);
}

/// Among wire forms, the order byte by byte is the order of the numbers they
/// spell.
pub proof fn lemma_lex_less_is_numeric(a: Seq<u8>, b: Seq<u8>)
    requires
        a.len() == WIRE_LEN,
        b.len() == WIRE_LEN,
    ensures
        lex_less(a, b) <==> wire_value(a) < wire_value(b),
{
    if lex_less(a, b) {
        let k = choose|k: int| #[trigger]
            same_prefix(a, b, k) && k < b.len() && (k == a.len() || a[k] < b[k]);
        assert(forall|i: int| 0 <= i < k ==> a[i] == b[i]);
        assert(wire_value(a) < wire_value(b));
    }
    if wire_value(a) < wire_value(b) {
        let k: int = if a[0] != b[0] {
            0
        } else if a[1] != b[1] {
            1
        } else if a[2] != b[2] {
            2
        } else if a[3] != b[3] {
            3
        } else {
            4
        };
        assert(same_prefix(a, b, k));
        assert(a[k] < b[k]);
    }
}

/// Wire forms sort as offsets do: of two tokens, the one with the smaller
/// offset has the wire form that comes first byte by byte.
pub proof fn lemma_order_preserved(t1: Token, t2: Token)
    requires
        t1.loc < t2.loc,
    ensures
        lex_less(wire_form(t1), wire_form(t2)),
{
    TokenType::lemma_ordinals();
    lemma_wire_value_of_token(t1);
    lemma_wire_value_of_token(t2);
    lemma_lex_less_is_numeric(wire_form(t1), wire_form(t2));
}

/// Two wire forms that spell the same number are the same.
pub proof fn lemma_wire_value_is_injective(a: Seq<u8>, b: Seq<u8>)
    requires
        a.len() == WIRE_LEN,
        b.len() == WIRE_LEN,
        wire_value(a) == wire_value(b),
    ensures
        a == b,
{
    assert(a =~= b);
}

/// Two tokens with the same key are the same.
pub proof fn lemma_token_key_is_injective(a: Token, b: Token)
    requires
        token_key(a) == token_key(b),
    ensures
        a == b,
{
    TokenType::lemma_ordinals();
    assert(TokenType::at_ordinal(a.ty.ordinal()) == Some(a.ty));
    assert(TokenType::at_ordinal(b.ty.ordinal()) == Some(b.ty));
}

} // verus!
