//! The text that a token covers, recovered from the sequence the token
//! belongs to and the source that was scanned.

use crate::error::TokenizationError;
use crate::text::{decode_text, text_of, text_view};
use crate::token::Token;
use crate::search::{halving, increasing, lemma_halving};
use crate::wire::{
    lemma_token_key_is_injective, lemma_unpack_pack, lemma_wire_value_is_injective,
    lemma_wire_value_of_token, token_key, wire_form, wire_key, wire_offset, wire_token,
    wire_value,
};
use vstd::prelude::*;
use vstd::slice::{slice_subrange, slice_to_vec};

verus! {

/// Where the text of a token lies in the source: `len` bytes from `start`,
/// or all that follows `start` where `len` is `None`.
#[derive(Clone, Copy, Debug, PartialEq, Eq)]
pub struct Span {
    /// Offset of the first byte.
    pub start: u32,
    /// Number of bytes; `None` for all that the source has left.
    pub len: Option<u32>,
}

/// Whether each token of the sequence starts after the one before it.
pub open spec fn offsets_increase(tokens: Seq<Token>) -> bool {
    forall|i: int, j: int| 0 <= i < j < tokens.len() ==> tokens[i].loc < tokens[j].loc
}

/// Whether each wire form of the sequence spells a larger number than the
/// one before it.
pub open spec fn wires_increase(wires: Seq<[u8; 5]>) -> bool {
    forall|i: int, j: int|
        0 <= i < j < wires.len() ==> wire_value(wires[i]@) < wire_value(wires[j]@)
}

/// Whether `wires` holds the wire form of each token of `tokens`, in order.
pub open spec fn same_sequence(tokens: Seq<Token>, wires: Seq<[u8; 5]>) -> bool {
    &&& wires.len() == tokens.len()
    &&& forall|i: int| 0 <= i < tokens.len() ==> (#[trigger] wires[i])@ == wire_form(tokens[i])
}

/// The keys of the tokens of a sequence.
pub open spec fn token_keys(tokens: Seq<Token>) -> Seq<nat> {
    tokens.map_values(|t: Token| token_key(t))
}

/// The numbers that the wire forms of a sequence spell.
pub open spec fn wire_keys(wires: Seq<[u8; 5]>) -> Seq<nat> {
    wires.map_values(|w: [u8; 5]| wire_value(w@))
}

/// The span from `start` up to the start of the next element, to the end of
/// the source where there is no next element. A next element that starts
/// before `start` leaves no span.
pub open spec fn span_up_to(start: u32, next: Option<u32>) -> Result<Span, TokenizationError> {
    match next {
        Some(end) => if end < start {
            Err(TokenizationError::NegativeSpan)
        } else {
            Ok(Span { start, len: Some((end - start) as u32) })
        },
        None => Ok(Span { start, len: None }),
    }
}

/// The span of the element at `i` of a sequence of tokens.
pub open spec fn span_at(tokens: Seq<Token>, i: int) -> Result<Span, TokenizationError> {
    span_up_to(
        tokens[i].loc,
        if i + 1 < tokens.len() {
            Some(tokens[i + 1].loc)
        } else {
            None
        },
    )
}

/// The span of a token in the sequence it belongs to.
pub open spec fn span_of(t: Token, tokens: Seq<Token>) -> Result<Span, TokenizationError> {
    if tokens.contains(t) {
        span_at(tokens, tokens.index_of(t))
    } else {
        Err(TokenizationError::TokenNotFound)
    }
}

/// The span of a token at the place where the search for it ends, in any
/// sequence.
pub open spec fn searched_span(t: Token, tokens: Seq<Token>) -> Result<Span, TokenizationError> {
    match halving(token_keys(tokens), token_key(t), 0, tokens.len() as int) {
        Some(i) => span_at(tokens, i),
        None => Err(TokenizationError::TokenNotFound),
    }
}

/// The span of the element at `i` of a sequence of wire forms. The next
/// element is read before its offset is used.
pub open spec fn packed_span_at(wires: Seq<[u8; 5]>, i: int) -> Result<Span, TokenizationError> {
    let start = wire_offset(wires[i]@) as u32;
    if i + 1 < wires.len() {
        match wire_token(wires[i + 1]@) {
            Some(next) => span_up_to(start, Some(next.loc)),
            None => Err(TokenizationError::InvalidCategory),
        }
    } else {
        span_up_to(start, None)
    }
}

/// Whether the element at `i` of `wires` is the wire form of `t`.
pub open spec fn is_packed_at(t: Token, wires: Seq<[u8; 5]>, i: int) -> bool {
    0 <= i < wires.len() && wires[i]@ == wire_form(t)
}

/// The span of a token in a sequence of wire forms that holds its own.
pub open spec fn packed_span_of(t: Token, wires: Seq<[u8; 5]>) -> Result<
    Span,
    TokenizationError,
> {
    if exists|i: int| is_packed_at(t, wires, i) {
        packed_span_at(wires, choose|i: int| is_packed_at(t, wires, i))
    } else {
        Err(TokenizationError::TokenNotFound)
    }
}

/// The span of a token at the place where the search for its wire form
/// ends, in any sequence of wire forms.
pub open spec fn packed_searched_span(t: Token, wires: Seq<[u8; 5]>) -> Result<
    Span,
    TokenizationError,
> {
    match halving(wire_keys(wires), token_key(t), 0, wires.len() as int) {
        Some(i) => packed_span_at(wires, i),
        None => Err(TokenizationError::TokenNotFound),
    }
}

/// The number of bytes of a span in a source of `total` bytes.
///
/// A span with a length has that length if the source holds all of it, and
/// a span of no bytes has none wherever it starts. A span without a length
/// runs to the end of the source, which must not lie before its start.
pub open spec fn span_len(span: Span, total: nat) -> Result<nat, TokenizationError> {
    match span.len {
        Some(n) => if n == 0 || span.start + n <= total {
            Ok(n as nat)
        } else {
            Err(TokenizationError::SourceTooShort)
        },
        None => if span.start <= total {
            Ok((total - span.start) as nat)
        } else {
            Err(TokenizationError::NegativeSpan)
        },
    }
}

/// The bytes of a span: as many as `span_len` says, from the start of the
/// span on.
pub open spec fn span_bytes(span: Span, source: Seq<u8>) -> Result<Seq<u8>, TokenizationError> {
    match span_len(span, source.len()) {
        Ok(n) => if n == 0 {
            Ok(Seq::empty())
        } else {
            Ok(source.subrange(span.start as int, span.start + n))
        },
        Err(e) => Err(e),
    }
}

/// The text of a span.
pub open spec fn span_text(span: Span, source: Seq<u8>) -> Result<Seq<char>, TokenizationError> {
    match span_bytes(span, source) {
        Ok(bytes) => text_of(bytes),
        Err(e) => Err(e),
    }
}

/// The text of a span that was found, the failure to find it otherwise.
pub open spec fn text_in(found: Result<Span, TokenizationError>, source: Seq<u8>) -> Result<
    Seq<char>,
    TokenizationError,
> {
    match found {
        Ok(span) => span_text(span, source),
        Err(e) => Err(e),
    }
}

impl Span {
    /// The number of bytes to read for the span from a source of `total`
    /// bytes.
    ///
    /// Fails with `SourceTooShort` where the source ends before a span with a
    /// length does, with `NegativeSpan` where a span that runs to the end of
    /// the source starts beyond that end.
    pub fn length(&self, total: u64) -> (r: Result<u64, TokenizationError>)
        ensures
            r == match span_len(*self, total as nat) {
                Ok(n) => Ok::<u64, TokenizationError>(n as u64),
                Err(e) => Err(e),
            },
    {
        let start: u64 = self.start as u64;
        match self.len {
            Some(n) => {
                if n == 0 || start + n as u64 <= total {
                    Ok(n as u64)
                } else {
                    Err(TokenizationError::SourceTooShort)
                }
            },
            None => {
                if start <= total {
                    Ok(total - start)
                } else {
                    Err(TokenizationError::NegativeSpan)
                }
            },
        }
    }
}

/// Reads the text of a span from a source held in memory.
///
/// Fails as `Span::length` does, and with `InvalidText` where the bytes of
/// the span are not UTF-8.
pub fn read_span(span: Span, source: &[u8]) -> (r: Result<String, TokenizationError>)
    ensures
        text_view(r) == span_text(span, source@),
{
    match span.length(source.len() as u64) {
        Err(e) => Err(e),
        Ok(n) => {
            if n == 0 {
                decode_text(Vec::new())
            } else {
                let from: usize = span.start as usize;
                let to: usize = from + n as usize;
                decode_text(slice_to_vec(slice_subrange(source, from, to)))
            }
        },
    }
}

/// The place that a search gave, as a number.
spec fn place(found: Option<usize>) -> Option<int> {
    match found {
        Some(i) => Some(i as int),
        None => None,
    }
}

impl Token {
    /// Searches a sequence for the token by halving.
    fn find(&self, tokens: &Vec<Token>) -> (r: Option<usize>)
        ensures
            place(r) == halving(token_keys(tokens@), token_key(*self), 0, tokens.len() as int),
            r matches Some(i) ==> i < tokens.len(),
    {
        let key: u64 = self.key();
        let ghost keys = token_keys(tokens@);
        let mut lo: usize = 0;
        let mut hi: usize = tokens.len();
        while lo < hi
            invariant
                lo <= hi <= tokens.len(),
                key == token_key(*self),
                keys == token_keys(tokens@),
                halving(keys, key as nat, lo as int, hi as int) == halving(
                    keys,
                    key as nat,
                    0,
                    tokens.len() as int,
                ),
            decreases hi - lo,
        {
            let mid: usize = lo + (hi - lo) / 2;
            let at: u64 = tokens[mid].key();
            assert(keys[mid as int] == at);
            if at < key {
                lo = mid + 1;
            } else if at > key {
                hi = mid;
            } else {
                return Some(mid);
            }
        }
        None
    }

    /// Searches a sequence of wire forms for the token's own by halving.
    fn find_packed(&self, wires: &Vec<[u8; 5]>) -> (r: Option<usize>)
        ensures
            place(r) == halving(wire_keys(wires@), token_key(*self), 0, wires.len() as int),
            r matches Some(i) ==> i < wires.len(),
    {
        let key: u64 = wire_key(&self.pack());
        proof {
            lemma_wire_value_of_token(*self);
        }
        let ghost keys = wire_keys(wires@);
        let mut lo: usize = 0;
        let mut hi: usize = wires.len();
        while lo < hi
            invariant
                lo <= hi <= wires.len(),
                key == token_key(*self),
                keys == wire_keys(wires@),
                halving(keys, key as nat, lo as int, hi as int) == halving(
                    keys,
                    key as nat,
                    0,
                    wires.len() as int,
                ),
            decreases hi - lo,
        {
            let mid: usize = lo + (hi - lo) / 2;
            let at: u64 = wire_key(&wires[mid]);
            assert(keys[mid as int] == at);
            if at < key {
                lo = mid + 1;
            } else if at > key {
                hi = mid;
            } else {
                return Some(mid);
            }
        }
        None
    }

    /// The span of the token in the sequence it belongs to.
    ///
    /// In a sequence with increasing offsets the token is found if it is an
    /// element, and its span ends where the next element starts. Fails with
    /// `TokenNotFound` where the search does not find the token, with
    /// `NegativeSpan` where the element after it starts before it.
    pub fn span(&self, tokens: &Vec<Token>) -> (r: Result<Span, TokenizationError>)
        ensures
            r == searched_span(*self, tokens@),
            offsets_increase(tokens@) ==> r == span_of(*self, tokens@),
    {
        proof {
            if offsets_increase(tokens@) {
                lemma_search_in_order(*self, tokens@);
            }
        }
        match self.find(tokens) {
            None => Err(TokenizationError::TokenNotFound),
            Some(i) => {
                proof {
                    lemma_halving(token_keys(tokens@), token_key(*self), 0, tokens.len() as int);
                    lemma_token_key_is_injective(tokens[i as int], *self);
                }
                if i + 1 < tokens.len() {
                    let next: u32 = tokens[i + 1].loc;
                    if next < self.loc {
                        Err(TokenizationError::NegativeSpan)
                    } else {
                        Ok(Span { start: self.loc, len: Some(next - self.loc) })
                    }
                } else {
                    Ok(Span { start: self.loc, len: None })
                }
            },
        }
    }

    /// The span of the token in a sequence of wire forms.
    ///
    /// In a sequence of increasing wire forms the token is found if its wire
    /// form is an element. Fails with `TokenNotFound` where the search does
    /// not find it, with `InvalidCategory` where the element after it cannot
    /// be read, with `NegativeSpan` where that element starts before the
    /// token.
    pub fn span_packed(&self, wires: &Vec<[u8; 5]>) -> (r: Result<Span, TokenizationError>)
        ensures
            r == packed_searched_span(*self, wires@),
            wires_increase(wires@) ==> r == packed_span_of(*self, wires@),
    {
        proof {
            if wires_increase(wires@) {
                lemma_packed_search_in_order(*self, wires@);
            }
        }
        match self.find_packed(wires) {
            None => Err(TokenizationError::TokenNotFound),
            Some(i) => {
                proof {
                    lemma_halving(wire_keys(wires@), token_key(*self), 0, wires.len() as int);
                    lemma_wire_value_of_token(*self);
                    lemma_wire_value_is_injective(wires[i as int]@, wire_form(*self));
                }
                if i + 1 < wires.len() {
                    match Token::unpack(&wires[i + 1]) {
                        Err(e) => Err(e),
                        Ok(next) => {
                            if next.loc < self.loc {
                                Err(TokenizationError::NegativeSpan)
                            } else {
                                Ok(Span { start: self.loc, len: Some(next.loc - self.loc) })
                            }
                        },
                    }
                } else {
                    Ok(Span { start: self.loc, len: None })
                }
            },
        }
    }

    /// The text that the token covers: the source from the token's offset up
    /// to the offset of the element that follows it in `tokens`, up to the
    /// end of the source for the last element.
    ///
    /// Fails as `span` does; with `SourceTooShort` where the source ends
    /// before the next element starts; with `NegativeSpan` where the token is
    /// the last element and starts beyond the end of the source; and with
    /// `InvalidText` where the bytes of the span are not UTF-8.
    pub fn get_string(&self, tokens: &Vec<Token>, source: &[u8]) -> (r: Result<
        String,
        TokenizationError,
    >)
        ensures
            text_view(r) == text_in(searched_span(*self, tokens@), source@),
            offsets_increase(tokens@) ==> text_view(r) == text_in(
                span_of(*self, tokens@),
                source@,
            ),
    {
        match self.span(tokens) {
            Ok(span) => read_span(span, source),
            Err(e) => Err(e),
        }
    }

    /// The text that the token covers, found in a sequence of wire forms.
    ///
    /// Fails as `span_packed` does; with `SourceTooShort` where the source
    /// ends before the next element starts; with `NegativeSpan` where the
    /// token is the last element and starts beyond the end of the source; and
    /// with `InvalidText` where the bytes of the span are not UTF-8.
    pub fn get_string_packed(&self, wires: &Vec<[u8; 5]>, source: &[u8]) -> (r: Result<
        String,
        TokenizationError,
    >)
        ensures
            text_view(r) == text_in(packed_searched_span(*self, wires@), source@),
            wires_increase(wires@) ==> text_view(r) == text_in(
                packed_span_of(*self, wires@),
                source@,
            ),
    {
        match self.span_packed(wires) {
            Ok(span) => read_span(span, source),
            Err(e) => Err(e),
        }
    }
}

/// In a sequence with increasing offsets the search finds every token that
/// is an element, at its place, and no other.
pub proof fn lemma_search_in_order(t: Token, tokens: Seq<Token>)
    requires
        offsets_increase(tokens),
    ensures
        increasing(token_keys(tokens)),
        searched_span(t, tokens) == span_of(t, tokens),
{
    crate::token::TokenType::lemma_ordinals();
    let keys = token_keys(tokens);
    assert(increasing(keys)) by {
        assert forall|i: int, j: int| 0 <= i < j < keys.len() implies keys[i] < keys[j] by {
            assert(tokens[i].loc < tokens[j].loc);
        }
    }
    lemma_halving(keys, token_key(t), 0, tokens.len() as int);
    match halving(keys, token_key(t), 0, tokens.len() as int) {
        Some(i) => {
            lemma_token_key_is_injective(tokens[i], t);
            assert(tokens.contains(t));
            assert(tokens.index_of(t) == i);
        },
        None => {
            if tokens.contains(t) {
                let i = tokens.index_of(t);
                assert(keys[i] == token_key(t));
            }
        },
    }
}

/// In a sequence of increasing wire forms the search finds the wire form of
/// every token that has it there, at its place, and no other.
pub proof fn lemma_packed_search_in_order(t: Token, wires: Seq<[u8; 5]>)
    requires
        wires_increase(wires),
    ensures
        increasing(wire_keys(wires)),
        packed_searched_span(t, wires) == packed_span_of(t, wires),
{
    let keys = wire_keys(wires);
    lemma_wire_value_of_token(t);
    lemma_halving(keys, token_key(t), 0, wires.len() as int);
    match halving(keys, token_key(t), 0, wires.len() as int) {
        Some(i) => {
            lemma_wire_value_is_injective(wires[i]@, wire_form(t));
            assert(is_packed_at(t, wires, i));
            let j = choose|j: int| is_packed_at(t, wires, j);
            assert(keys[j] == keys[i]);
        },
        None => {
            if exists|j: int| is_packed_at(t, wires, j) {
                let j = choose|j: int| is_packed_at(t, wires, j);
                assert(keys[j] == token_key(t));
            }
        },
    }
}

/// In a sequence with increasing offsets, the text of each element is the
/// source from the element's offset up to the offset of the next element,
/// and up to the end of the source for the last element.
pub proof fn lemma_text_of_element(tokens: Seq<Token>, i: int, source: Seq<u8>)
    requires
        offsets_increase(tokens),
        0 <= i < tokens.len(),
        i + 1 < tokens.len() ==> tokens[i + 1].loc <= source.len(),
        i + 1 == tokens.len() ==> tokens[i].loc <= source.len(),
    ensures
        i + 1 < tokens.len() ==> text_in(span_of(tokens[i], tokens), source) == text_of(
            source.subrange(tokens[i].loc as int, tokens[i + 1].loc as int),
        ),
        i + 1 == tokens.len() ==> text_in(span_of(tokens[i], tokens), source) == text_of(
            source.subrange(tokens[i].loc as int, source.len() as int),
        ),
{
    let t = tokens[i];
    assert(tokens.contains(t));
    assert(tokens.index_of(t) == i);
    if i + 1 == tokens.len() && t.loc == source.len() {
        assert(source.subrange(t.loc as int, source.len() as int) =~= Seq::<u8>::empty());
    }
}

/// In a sequence with increasing offsets, an element that starts beyond the
/// end of the source has no text: the last element has a negative span, and
/// for any other the source is too short.
pub proof fn lemma_no_text_beyond_the_end(tokens: Seq<Token>, i: int, source: Seq<u8>)
    requires
        offsets_increase(tokens),
        0 <= i < tokens.len(),
        tokens[i].loc > source.len(),
    ensures
        i + 1 == tokens.len() ==> text_in(span_of(tokens[i], tokens), source) == Err::<
            Seq<char>,
            TokenizationError,
        >(TokenizationError::NegativeSpan),
        i + 1 < tokens.len() ==> text_in(span_of(tokens[i], tokens), source) == Err::<
            Seq<char>,
            TokenizationError,
        >(TokenizationError::SourceTooShort),
{
    let t = tokens[i];
    assert(tokens.contains(t));
    assert(tokens.index_of(t) == i);
}

/// A sequence of tokens and the sequence of their wire forms give every
/// token the same span, and so the same text, whatever their order. Where
/// the offsets increase, so do the wire forms.
pub proof fn lemma_forms_agree(
    t: Token,
    tokens: Seq<Token>,
    wires: Seq<[u8; 5]>,
    source: Seq<u8>,
)
    requires
        same_sequence(tokens, wires),
    ensures
        packed_searched_span(t, wires) == searched_span(t, tokens),
        text_in(packed_searched_span(t, wires), source) == text_in(
            searched_span(t, tokens),
            source,
        ),
        offsets_increase(tokens) ==> wires_increase(wires) && packed_span_of(t, wires)
            == span_of(t, tokens),
{
    assert forall|i: int| 0 <= i < tokens.len() implies wire_value(#[trigger] wires[i]@)
        == token_key(tokens[i]) && wire_offset(wires[i]@) == tokens[i].loc && wire_token(
        wires[i]@,
    ) == Some(tokens[i]) by {
        lemma_wire_value_of_token(tokens[i]);
        lemma_unpack_pack(tokens[i]);
    }
    assert(wire_keys(wires) =~= token_keys(tokens));
    lemma_halving(token_keys(tokens), token_key(t), 0, tokens.len() as int);
    if offsets_increase(tokens) {
        lemma_search_in_order(t, tokens);
        assert(wires_increase(wires)) by {
            assert forall|i: int, j: int| 0 <= i < j < wires.len() implies wire_value(wires[i]@)
                < wire_value(wires[j]@) by {
                assert(token_keys(tokens)[i] < token_keys(tokens)[j]);
            }
        }
        lemma_packed_search_in_order(t, wires);
    }
}

} // verus!
