use crate::heap::{byte_len, fx_str_hash, same_record, same_text, share, HeapAtom};
use crate::tags::{
    inline_image, inline_wf, lemma_inline_image, lemma_inline_text, payload_of, TaggedValue,
    MAX_INLINE_LEN,
};
use std::sync::Arc;
use vstd::bytes::{
    lemma_auto_spec_u64_to_from_le_bytes, spec_u64_from_le_bytes, spec_u64_to_le_bytes,
};
use vstd::prelude::*;
use vstd::utf8::{decode_utf8, encode_utf8};

verus! {

/// A string handle. Strings of at most `MAX_INLINE_LEN` bytes are stored in
/// an eight-byte inline word; longer ones in a shared heap record. The
/// handle is a sum type of the two, two machine words in size.
#[derive(Debug)]
pub struct Atom {
    inner: TaggedValue,
}

/// The inline word that holds `text`.
pub open spec fn inline_word_of(text: Seq<char>) -> u64 {
    spec_u64_from_le_bytes(inline_image(encode_utf8(text)))
}

impl View for Atom {
    type V = Seq<char>;

    closed spec fn view(&self) -> Seq<char> {
        self.inner.text()
    }
}

impl Atom {
    /// The representation is valid, and a string is inline exactly when it
    /// fits in the word.
    pub closed spec fn wf(&self) -> bool {
        &&& self.inner.wf()
        &&& (self.inner is HeapOwned <==> byte_len(self@) > MAX_INLINE_LEN)
    }

    /// The text lives in a heap record rather than in the word.
    pub closed spec fn spec_is_heap(&self) -> bool {
        self.inner is HeapOwned
    }

    /// The hash of an atom: the content hash of a heap record, the raw word
    /// of an inline value.
    pub open spec fn spec_hash(&self) -> u64 {
        if self.spec_is_heap() {
            fx_str_hash(self@)
        } else {
            inline_word_of(self@)
        }
    }

    /// The store that interned a heap atom.
    pub closed spec fn spec_store_id(&self) -> Option<u32> {
        match self.inner {
            TaggedValue::HeapOwned(h) => h.header.store_id,
            TaggedValue::Inline(_) => None,
        }
    }

    /// The position of a heap atom in its store.
    pub closed spec fn spec_slot(&self) -> usize {
        match self.inner {
            TaggedValue::HeapOwned(h) => h.header.slot,
            TaggedValue::Inline(_) => 0,
        }
    }

    /// The representation: the inline word or the heap handle.
    pub closed spec fn repr(&self) -> TaggedValue {
        self.inner
    }

    #[verifier::type_invariant]
    spec fn inv(&self) -> bool {
        self.wf()
    }

    proof fn lemma_wf_facts(&self)
        requires
            self.wf(),
        ensures
            self.spec_is_heap() ==> self.inner->HeapOwned_0.wf(),
            !self.spec_is_heap() ==> self.inner is Inline && inline_wf(self.inner->Inline_0@)
                && self.inner.word() == inline_word_of(self@)
                && payload_of(self.inner->Inline_0@) == encode_utf8(self@),
    {
        if !self.spec_is_heap() {
            let b = self.inner->Inline_0@;
            lemma_inline_text(b);
        }
    }

    /// Two inline atoms have the same raw word exactly when they hold the
    /// same text.
    proof fn lemma_inline_word_injective(&self, other: &Atom)
        requires
            self.wf(),
            other.wf(),
            !self.spec_is_heap(),
            !other.spec_is_heap(),
        ensures
            (self.inner.word() == other.inner.word()) <==> (self@ == other@),
    {
        self.lemma_wf_facts();
        other.lemma_wf_facts();
        let x = self.inner->Inline_0@;
        let y = other.inner->Inline_0@;
        if self.inner.word() == other.inner.word() {
            lemma_auto_spec_u64_to_from_le_bytes();
            assert(spec_u64_to_le_bytes(spec_u64_from_le_bytes(x)) == x);
            assert(spec_u64_to_le_bytes(spec_u64_from_le_bytes(y)) == y);
            assert(x == y);
            vstd::utf8::encode_utf8_decode_utf8(self@);
            vstd::utf8::encode_utf8_decode_utf8(other@);
        }
    }

    /// Whether the two atoms have the same word: the same inline bytes, or
    /// handles on the same heap record.
    fn same_word(&self, other: &Atom) -> (r: bool)
        ensures
            !self.spec_is_heap() && !other.spec_is_heap() ==> r == (self.inner.word()
                == other.inner.word()),
            self.spec_is_heap() && other.spec_is_heap() && r ==> self@ == other@,
            self.spec_is_heap() != other.spec_is_heap() ==> !r,
    {
        match (&self.inner, &other.inner) {
            (TaggedValue::HeapOwned(a), TaggedValue::HeapOwned(b)) => same_record(a, b),
            (TaggedValue::Inline(_), TaggedValue::Inline(_)) => self.inner.hash()
                == other.inner.hash(),
            _ => false,
        }
    }

    /// Equality of texts, cheapest test first: the same word (inline bytes
    /// or heap record) means equal; different tags or different hashes rule
    /// equality out; else this atom's text is compared with the other's.
    pub fn equals(&self, other: &Atom) -> (r: bool)
        ensures
            r == (self@ == other@),
    {
        proof {
            use_type_invariant(self);
            use_type_invariant(other);
            self.lemma_wf_facts();
            other.lemma_wf_facts();
            if !self.spec_is_heap() && !other.spec_is_heap() {
                self.lemma_inline_word_injective(other);
            }
        }
        if self.same_word(other) {
            return true;
        }
        if self.inner.tag() != other.inner.tag() {
            return false;
        }
        if self.get_hash() != other.get_hash() {
            return false;
        }
        match (self.inner.get_ptr(), other.inner.get_ptr()) {
            (Some(a), Some(b)) => a.string == b.string,
            _ => false,
        }
    }

    /// An atom made in the word; the caller checks that `s` fits.
    pub(crate) fn new_inline_impl(s: &str) -> (r: Atom)
        requires
            byte_len(s@) <= MAX_INLINE_LEN,
        ensures
            r.wf(),
            r@ == s@,
            !r.spec_is_heap(),
    {
        let bytes = s.as_bytes();
        let len = bytes.len();
        let mut value = TaggedValue::new_inline(len as u8);
        value.write_payload(bytes);
        proof {
            let b = value->Inline_0@;
            lemma_inline_image(bytes@);
            vstd::utf8::encode_utf8_valid_utf8(s@);
            vstd::utf8::encode_utf8_decode_utf8(s@);
            assert(payload_of(b) == bytes@);
        }
        Atom { inner: value }
    }

    /// An atom that holds a handle on a heap record of a long string.
    pub fn from_heap(h: Arc<HeapAtom>) -> (r: Atom)
        requires
            h.wf(),
            byte_len(h.text()) > MAX_INLINE_LEN,
        ensures
            r.wf(),
            r@ == h.text(),
            r.spec_is_heap(),
            r.spec_store_id() == h.header.store_id,
            r.spec_slot() == h.header.slot,
    {
        Atom { inner: TaggedValue::new_ptr(h) }
    }

    /// An atom for `s`: in the word when `s` fits there, else in a heap
    /// record of its own that belongs to no store.
    pub fn new(s: &str) -> (r: Atom)
        requires
            byte_len(s@) <= u32::MAX,
        ensures
            r.wf(),
            r@ == s@,
            r.spec_is_heap() == (byte_len(s@) > MAX_INLINE_LEN),
            r.spec_store_id() is None,
    {
        if s.len() <= MAX_INLINE_LEN {
            Self::new_inline_impl(s)
        } else {
            Self::from_heap(HeapAtom::new(s, None))
        }
    }

    /// The empty atom.
    pub fn empty() -> (r: Atom)
        ensures
            r.wf(),
            r@ == Seq::<char>::empty(),
            !r.spec_is_heap(),
    {
        let value = TaggedValue::new_inline(0);
        proof {
            let b = value->Inline_0@;
            lemma_inline_image(Seq::<u8>::empty());
            assert(Seq::new(0, |_i: int| 0u8) =~= Seq::<u8>::empty());
            assert(payload_of(b) =~= Seq::<u8>::empty());
            assert(decode_utf8(Seq::<u8>::empty()) =~= Seq::<char>::empty());
            assert(encode_utf8(Seq::<char>::empty()) =~= Seq::<u8>::empty());
        }
        let r = Atom { inner: value };
        r
    }

    /// An atom for `s` stored in the word. `s` must fit there: longer text is
    /// rejected, never moved to the heap.
    pub fn new_inline(s: &str) -> (r: Atom)
        requires
            byte_len(s@) <= MAX_INLINE_LEN,
        ensures
            r.wf(),
            r@ == s@,
            !r.spec_is_heap(),
    {
        Self::new_inline_impl(s)
    }

    /// Length of the text in bytes.
    pub fn len(&self) -> (r: usize)
        ensures
            r == byte_len(self@),
    {
        proof {
            use_type_invariant(self);
        }
        match self.inner.get_ptr() {
            Some(h) => h.len(),
            None => self.inner.len(),
        }
    }

    pub fn is_empty(&self) -> (r: bool)
        ensures
            r == (self@.len() == 0),
    {
        proof {
            use_type_invariant(self);
        }
        proof {
            vstd::utf8::encode_utf8_valid_utf8(self@);
            vstd::utf8::encode_utf8_decode_utf8(self@);
            if byte_len(self@) == 0 {
                assert(encode_utf8(self@) =~= Seq::<u8>::empty());
                assert(decode_utf8(Seq::<u8>::empty()) =~= Seq::<char>::empty());
            }
        }
        self.len() == 0
    }

    /// The atom's hash: the stored content hash of a heap record, the raw
    /// word of an inline value.
    pub fn get_hash(&self) -> (r: u64)
        ensures
            r == self.spec_hash(),
    {
        proof {
            use_type_invariant(self);
        }
        proof {
            self.lemma_wf_facts();
        }
        match self.inner.get_ptr() {
            Some(h) => h.hash(),
            None => self.inner.hash(),
        }
    }

    /// Whether the text lives in a heap record.
    pub fn is_heap(&self) -> (r: bool)
        ensures
            r == self.spec_is_heap(),
    {
        proof {
            use_type_invariant(self);
        }
        self.inner.tag().is_heap_owned()
    }

    /// The text.
    pub fn as_str(&self) -> (r: &str)
        ensures
            r@ == self@,
    {
        proof {
            use_type_invariant(self);
        }
        match self.inner.get_ptr() {
            Some(h) => h.as_str(),
            None => self.inner.inline_str(),
        }
    }

    /// The heap record behind the atom, if it has one.
    pub fn heap_atom(&self) -> (r: Option<&HeapAtom>)
        ensures
            r is Some <==> self.spec_is_heap(),
            r matches Some(h) ==> h.text() == self@ && h.header.store_id == self.spec_store_id()
                && h.header.slot == self.spec_slot(),
    {
        self.inner.get_ptr()
    }
}

/// Two inline atoms with the same text have bit-identical representations,
/// wherever they were made (with a store or without one).
pub proof fn lemma_equal_inline_atoms_identical(a: Atom, b: Atom)
    requires
        a.wf(),
        b.wf(),
        a@ == b@,
        !a.spec_is_heap(),
    ensures
        !b.spec_is_heap(),
        a.repr() == b.repr(),
{
    broadcast use vstd::array::axiom_array_ext_equal;

    a.lemma_wf_facts();
    b.lemma_wf_facts();
    let x = a.inner->Inline_0;
    let y = b.inner->Inline_0;
    assert(x@ == y@);
    assert(x == y);
}

/// Equal atoms have equal hashes.
pub proof fn lemma_eq_implies_same_hash(a: Atom, b: Atom)
    requires
        a.wf(),
        b.wf(),
    ensures
        a@ == b@ ==> a.spec_hash() == b.spec_hash(),
{
}

/// Atoms of different stores, of no store, or of one store holding the same
/// text are equal, and hash alike: neither the store nor the record takes
/// part in equality or in the hash.
pub proof fn lemma_equal_texts_across_stores(a: Atom, b: Atom)
    requires
        a.wf(),
        b.wf(),
        a@ == b@,
    ensures
        a.spec_is_heap() == b.spec_is_heap(),
        a.spec_hash() == b.spec_hash(),
{
}

impl PartialEq for Atom {
    fn eq(&self, other: &Atom) -> (r: bool) {
        self.equals(other)
    }
}

impl vstd::std_specs::cmp::PartialEqSpecImpl for Atom {
    open spec fn obeys_eq_spec() -> bool {
        true
    }

    open spec fn eq_spec(&self, other: &Atom) -> bool {
        self@ == other@
    }
}

impl Eq for Atom {

}

impl PartialEq<str> for Atom {
    fn eq(&self, other: &str) -> (r: bool) {
        same_text(self.as_str(), other)
    }
}

impl vstd::std_specs::cmp::PartialEqSpecImpl<str> for Atom {
    open spec fn obeys_eq_spec() -> bool {
        true
    }

    open spec fn eq_spec(&self, other: &str) -> bool {
        self@ == other@
    }
}

impl core::ops::Deref for Atom {
    type Target = str;

    fn deref(&self) -> (r: &str)
        ensures
            r@ == self@,
    {
        self.as_str()
    }
}

impl AsRef<str> for Atom {
    fn as_ref(&self) -> (r: &str)
        ensures
            r@ == self@,
    {
        self.as_str()
    }
}

/// Relies on `Hasher::write_u64`: it feeds one integer to the hasher. Nothing
/// is claimed of the hasher's state.
#[verifier::external_body]
fn feed_u64<H: core::hash::Hasher>(state: &mut H, value: u64) {
    state.write_u64(value);
}

impl<'a> PartialEq<&'a str> for Atom {
    fn eq(&self, other: &&'a str) -> (r: bool) {
        same_text(self.as_str(), *other)
    }
}

impl<'a> vstd::std_specs::cmp::PartialEqSpecImpl<&'a str> for Atom {
    open spec fn obeys_eq_spec() -> bool {
        true
    }

    open spec fn eq_spec(&self, other: &&'a str) -> bool {
        self@ == (*other)@
    }
}

impl PartialEq<Atom> for str {
    fn eq(&self, other: &Atom) -> (r: bool) {
        same_text(self, other.as_str())
    }
}

impl vstd::std_specs::cmp::PartialEqSpecImpl<Atom> for str {
    open spec fn obeys_eq_spec() -> bool {
        true
    }

    open spec fn eq_spec(&self, other: &Atom) -> bool {
        self@ == other@
    }
}

impl core::hash::Hash for Atom {
    /// Feeds the precomputed hash (`get_hash`) to the hasher; the text is
    /// never hashed again.
    fn hash<H: core::hash::Hasher>(&self, state: &mut H) {
        let h = self.get_hash();
        feed_u64(state, h);
    }
}

impl Clone for Atom {
    /// A heap atom's clone is one more handle on the same record; an inline
    /// atom's is a copy of the word.
    fn clone(&self) -> (r: Atom)
        ensures
            r == *self,
    {
        proof {
            use_type_invariant(self);
        }
        match &self.inner {
            TaggedValue::HeapOwned(h) => Atom { inner: TaggedValue::HeapOwned(share(h)) },
            TaggedValue::Inline(b) => Atom { inner: TaggedValue::Inline(*b) },
        }
    }
}

} // verus!
