use crate::heap::{byte_len, HeapAtom};
use std::sync::Arc;
use vstd::bytes::{spec_u64_from_le_bytes, u64_from_le_bytes};
use vstd::prelude::*;
use vstd::slice::slice_subrange;
use vstd::utf8::{decode_utf8, encode_utf8, valid_utf8};

verus! {

/// The longest string, in bytes, that fits inside the tagged word: the word
/// has eight bytes and the first one holds the tag and the length.
pub const MAX_INLINE_LEN: usize = 7;

/// Mask of the tag bits in the tag byte.
pub const TAG_MASK: u8 = 3;

/// Tag bits of an inline value.
pub const INLINE_TAG_BITS: u8 = 1;

/// Position of the inline length inside the tag byte.
pub const INLINE_LEN_OFFSET: u8 = 4;

/// What a tagged word holds. There is no kind for compile-time constant
/// strings: every atom is either inline or a counted heap record.
#[derive(Debug, Clone, Copy, PartialEq, Eq, Structural)]
pub enum Tag {
    /// A shared heap record.
    HeapOwned,
    /// Up to `MAX_INLINE_LEN` bytes of text stored in the word itself.
    Inline,
}

/// The tag that the given tag bits stand for.
pub open spec fn tag_of_bits(bits: u8) -> Tag {
    if bits == 0 {
        Tag::HeapOwned
    } else {
        Tag::Inline
    }
}

impl Tag {
    /// The tag whose bits are `value`.
    pub fn new_unchecked(value: u8) -> (r: Tag)
        requires
            value <= INLINE_TAG_BITS,
        ensures
            r == tag_of_bits(value),
    {
        if value == 0 {
            Tag::HeapOwned
        } else {
            Tag::Inline
        }
    }

    pub fn is_heap_owned(self) -> (r: bool)
        ensures
            r == (self == Tag::HeapOwned),
    {
        matches!(self, Tag::HeapOwned)
    }

    pub fn is_inline(self) -> (r: bool)
        ensures
            r == (self == Tag::Inline),
    {
        matches!(self, Tag::Inline)
    }
}

/// The tag byte of an inline value of `len` bytes: tag bits `01` and the
/// length in the high nibble.
pub open spec fn tag_byte_of(len: nat) -> u8 {
    (INLINE_TAG_BITS + len * 16) as u8
}

pub proof fn lemma_tag_byte_decodes(len: u8)
    requires
        len <= MAX_INLINE_LEN,
    ensures
        (INLINE_TAG_BITS | (len << INLINE_LEN_OFFSET)) == tag_byte_of(len as nat),
        tag_byte_of(len as nat) & TAG_MASK == INLINE_TAG_BITS,
        tag_byte_of(len as nat) >> INLINE_LEN_OFFSET == len,
{
    assert((1u8 | (len << 4u8)) == 1 + len * 16) by (bit_vector)
        requires
            len <= 7u8,
    ;
    let b: u8 = (1 + len * 16) as u8;
    assert(b & 3u8 == 1u8 && b >> 4u8 == len) by (bit_vector)
        requires
            len <= 7u8,
            b == 1 + len * 16,
    ;
}

/// The eight bytes of an inline value that holds `payload`: the tag byte,
/// then the payload, then zeros.
pub open spec fn inline_image(payload: Seq<u8>) -> Seq<u8> {
    seq![tag_byte_of(payload.len())] + payload + Seq::new(
        (MAX_INLINE_LEN - payload.len()) as nat,
        |_i: int| 0u8,
    )
}

/// The length recorded in the tag byte of an inline word.
pub open spec fn inline_len_of(word: Seq<u8>) -> nat {
    (word[0] >> INLINE_LEN_OFFSET) as nat
}

/// The payload bytes of an inline word.
pub open spec fn payload_of(word: Seq<u8>) -> Seq<u8> {
    word.subrange(1, 1 + inline_len_of(word) as int)
}

/// An inline word is the image of its payload, which is valid UTF-8.
pub open spec fn inline_wf(word: Seq<u8>) -> bool {
    &&& word.len() == 8
    &&& inline_len_of(word) <= MAX_INLINE_LEN
    &&& word == inline_image(payload_of(word))
    &&& valid_utf8(payload_of(word))
}

/// Relies on `core::str::from_utf8`: it accepts exactly the valid UTF-8 byte
/// sequences and borrows them unchanged as text.
#[verifier::external_body]
fn utf8_str(v: &[u8]) -> (r: Option<&str>)
    ensures
        r is Some <==> valid_utf8(v@),
        r matches Some(s) ==> encode_utf8(s@) == v@,
{
    core::str::from_utf8(v).ok()
}

/// Decoding the payload of an inline word gives text whose encoding is that
/// payload.
pub proof fn lemma_inline_text(word: Seq<u8>)
    requires
        inline_wf(word),
    ensures
        encode_utf8(decode_utf8(payload_of(word))) == payload_of(word),
        byte_len(decode_utf8(payload_of(word))) == inline_len_of(word),
{
    vstd::utf8::decode_utf8_encode_utf8(payload_of(word));
}

pub proof fn lemma_inline_image(payload: Seq<u8>)
    requires
        payload.len() <= MAX_INLINE_LEN,
    ensures
        inline_image(payload).len() == 8,
        inline_len_of(inline_image(payload)) == payload.len(),
        payload_of(inline_image(payload)) == payload,
        inline_image(payload)[0] & TAG_MASK == INLINE_TAG_BITS,
{
    lemma_tag_byte_decodes(payload.len() as u8);
    assert(payload_of(inline_image(payload)) =~= payload);
}

/// A text that fits in the word is stored as a valid inline word, and
/// decoding that word gives the text back.
pub proof fn lemma_inline_round_trip(text: Seq<char>)
    requires
        byte_len(text) <= MAX_INLINE_LEN,
    ensures
        inline_wf(inline_image(encode_utf8(text))),
        decode_utf8(payload_of(inline_image(encode_utf8(text)))) == text,
        byte_len(text) == inline_len_of(inline_image(encode_utf8(text))),
{
    lemma_inline_image(encode_utf8(text));
    vstd::utf8::encode_utf8_valid_utf8(text);
    vstd::utf8::encode_utf8_decode_utf8(text);
}

/// A handle on a shared heap record, or a short string stored in place in
/// an eight-byte word. As a Rust enum it takes two machine words: the tag is
/// the enum's, and the inline word keeps its own tag byte as well.
#[derive(Debug)]
pub enum TaggedValue {
    HeapOwned(Arc<HeapAtom>),
    /// Byte 0 is the tag byte (tag bits and length); bytes 1 to 7 hold the
    /// text, padded with zeros. Read as one little-endian integer, the
    /// bytes are the word's raw value.
    Inline([u8; 8]),
}

impl TaggedValue {
    pub open spec fn wf(&self) -> bool {
        match self {
            TaggedValue::HeapOwned(h) => h.wf(),
            TaggedValue::Inline(b) => inline_wf(b@),
        }
    }

    pub open spec fn spec_tag(&self) -> Tag {
        match self {
            TaggedValue::HeapOwned(_) => Tag::HeapOwned,
            TaggedValue::Inline(_) => Tag::Inline,
        }
    }

    /// The text the value stands for.
    pub open spec fn text(&self) -> Seq<char> {
        match self {
            TaggedValue::HeapOwned(h) => h.text(),
            TaggedValue::Inline(b) => decode_utf8(payload_of(b@)),
        }
    }

    /// The raw word of an inline value.
    pub open spec fn word(&self) -> u64 {
        match self {
            TaggedValue::HeapOwned(_) => 0,
            TaggedValue::Inline(b) => spec_u64_from_le_bytes(b@),
        }
    }

    /// Tag bits from the tag byte of an inline value; a heap handle otherwise.
    pub fn tag(&self) -> (r: Tag)
        requires
            self.wf(),
        ensures
            r == self.spec_tag(),
    {
        match self {
            TaggedValue::HeapOwned(_) => Tag::HeapOwned,
            TaggedValue::Inline(b) => {
                proof {
                    lemma_inline_image(payload_of(b@));
                }
                Tag::new_unchecked(b[0] & TAG_MASK)
            },
        }
    }

    /// The tag byte of an inline value.
    pub fn tag_byte(&self) -> (r: u8)
        requires
            self is Inline,
        ensures
            r == self->Inline_0[0],
    {
        match self {
            TaggedValue::Inline(b) => b[0],
            TaggedValue::HeapOwned(_) => 0,
        }
    }

    /// The length in bytes of the text of an inline value.
    pub fn len(&self) -> (r: usize)
        requires
            self is Inline,
            self.wf(),
        ensures
            r == byte_len(self.text()),
            r <= MAX_INLINE_LEN,
    {
        proof {
            lemma_inline_text(self->Inline_0@);
        }
        (self.tag_byte() >> INLINE_LEN_OFFSET) as usize
    }

    /// The raw word of an inline value.
    fn get_value(&self) -> (r: u64)
        requires
            self is Inline,
        ensures
            r == self.word(),
    {
        match self {
            TaggedValue::Inline(b) => u64_from_le_bytes(b.as_slice()),
            TaggedValue::HeapOwned(_) => 0,
        }
    }

    /// The hash of an inline value: its raw word.
    pub fn hash(&self) -> (r: u64)
        requires
            self is Inline,
        ensures
            r == self.word(),
    {
        self.get_value()
    }

    /// The payload region of an inline value (the word but its tag byte).
    pub fn as_bytes(&self) -> (r: &[u8])
        requires
            self is Inline,
        ensures
            r@ == self->Inline_0@.subrange(1, 8),
    {
        match self {
            TaggedValue::Inline(b) => slice_subrange(b.as_slice(), 1, 8),
            TaggedValue::HeapOwned(_) => &[],
        }
    }

    /// The text of an inline value.
    pub fn inline_str(&self) -> (r: &str)
        requires
            self is Inline,
            self.wf(),
        ensures
            r@ == self.text(),
    {
        let len = self.len();
        proof {
            lemma_inline_text(self->Inline_0@);
        }
        let payload = slice_subrange(self.as_bytes(), 0, len);
        assert(payload@ == payload_of(self->Inline_0@));
        match utf8_str(payload) {
            Some(s) => {
                proof {
                    vstd::utf8::encode_utf8_decode_utf8(s@);
                }
                s
            },
            None => "",
        }
    }

    /// The heap record of a heap handle; `None` for an inline value.
    pub fn get_ptr(&self) -> (r: Option<&HeapAtom>)
        ensures
            r matches Some(h) <==> self is HeapOwned,
            r matches Some(h) ==> *h == *self->HeapOwned_0,
    {
        match self {
            TaggedValue::HeapOwned(h) => Some(&**h),
            TaggedValue::Inline(_) => None,
        }
    }

    /// A value that holds a handle on `value`.
    pub fn new_ptr(value: Arc<HeapAtom>) -> (r: TaggedValue)
        ensures
            r == TaggedValue::HeapOwned(value),
    {
        TaggedValue::HeapOwned(value)
    }

    /// An inline value of `len` zero bytes.
    pub fn new_inline(len: u8) -> (r: TaggedValue)
        requires
            len <= MAX_INLINE_LEN,
        ensures
            r matches TaggedValue::Inline(b) && b@ == inline_image(Seq::new(len as nat, |_i: int| 0u8)),
    {
        proof {
            lemma_tag_byte_decodes(len);
        }
        let tag_byte: u8 = INLINE_TAG_BITS | (len << INLINE_LEN_OFFSET);
        let r = TaggedValue::Inline([tag_byte, 0, 0, 0, 0, 0, 0, 0]);
        assert(r->Inline_0@ =~= inline_image(Seq::new(len as nat, |_i: int| 0u8)));
        r
    }

    /// Writes `src` over the payload of an inline value whose length is that
    /// of `src`.
    pub fn write_payload(&mut self, src: &[u8])
        requires
            src@.len() <= MAX_INLINE_LEN,
            *old(self) matches TaggedValue::Inline(b) && b@ == inline_image(
                Seq::new(src@.len(), |_i: int| 0u8),
            ),
        ensures
            *final(self) matches TaggedValue::Inline(b) && b@ == inline_image(src@),
    {
        let n = src.len();
        match self {
            TaggedValue::Inline(b) => {
                let mut i: usize = 0;
                while i < n
                    invariant
                        n == src@.len(),
                        n <= MAX_INLINE_LEN,
                        0 <= i <= n,
                        b@.len() == 8,
                        b@ == inline_image(src@.subrange(0, i as int) + Seq::new((n - i) as nat, |_i: int| 0u8)),
                    decreases n - i,
                {
                    b[i + 1] = src[i];
                    i = i + 1;
                    assert(b@ =~= inline_image(src@.subrange(0, i as int) + Seq::new((n - i) as nat, |_i: int| 0u8)));
                }
                assert(src@.subrange(0, n as int) + Seq::new(0, |_i: int| 0u8) =~= src@);
            },
            TaggedValue::HeapOwned(_) => {},
        }
    }
}

} // verus!
