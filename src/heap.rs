use std::sync::Arc;
use vstd::prelude::*;
use vstd::utf8::encode_utf8;

verus! {

/// Length in bytes of the UTF-8 encoding of `text`.
pub open spec fn byte_len(text: Seq<char>) -> nat {
    encode_utf8(text).len()
}

/// The hash that `rustc_hash::FxHasher` gives a string through `str`'s `Hash`.
pub uninterp spec fn fx_str_hash(text: Seq<char>) -> u64;

/// Relies on `rustc_hash::FxHasher`: it starts from a fixed zero state and is
/// not seeded per process, so the hash of a string depends on its text alone.
#[verifier::external_body]
pub(crate) fn str_hash(s: &str) -> (r: u64)
    ensures
        r == fx_str_hash(s@),
{
    let mut hasher = rustc_hash::FxHasher::default();
    core::hash::Hash::hash(s, &mut hasher);
    core::hash::Hasher::finish(&hasher)
}

/// Relies on `Arc::clone`: the new handle points at the same allocation, one
/// more strong count, so it holds the same value.
#[verifier::external_body]
pub(crate) fn share(h: &Arc<HeapAtom>) -> (r: Arc<HeapAtom>)
    ensures
        r == *h,
{
    Arc::clone(h)
}

/// Relies on `Arc::ptr_eq`: two handles on the same allocation hold the same
/// value.
#[verifier::external_body]
pub(crate) fn same_record(a: &Arc<HeapAtom>, b: &Arc<HeapAtom>) -> (r: bool)
    ensures
        r ==> *a == *b,
{
    Arc::ptr_eq(a, b)
}

/// Whether two strings hold the same text, compared byte by byte.
pub fn same_text(a: &str, b: &str) -> (r: bool)
    ensures
        r == (a@ == b@),
{
    let x = a.as_bytes();
    let y = b.as_bytes();
    proof {
        vstd::utf8::encode_utf8_decode_utf8(a@);
        vstd::utf8::encode_utf8_decode_utf8(b@);
    }
    if x.len() != y.len() {
        return false;
    }
    let mut i: usize = 0;
    while i < x.len()
        invariant
            0 <= i <= x@.len(),
            x@.len() == y@.len(),
            x@ == encode_utf8(a@),
            y@ == encode_utf8(b@),
            forall|j: int| 0 <= j < i ==> x@[j] == y@[j],
        decreases x@.len() - i,
    {
        if x[i] != y[i] {
            return false;
        }
        i = i + 1;
    }
    assert(x@ =~= y@);
    true
}

/// The fixed header of a heap atom.
#[derive(Debug)]
pub struct Header {
    /// Length of the string in bytes.
    pub len: u32,
    /// The store that interned the string, if any.
    pub store_id: Option<u32>,
    /// Position of the atom in its store's table (0 when it has no store).
    pub slot: usize,
    /// Pre-computed content hash.
    pub hash: u64,
}

impl Header {
    /// The header for `s`: its byte length, its store and slot, and its
    /// content hash.
    pub fn new(s: &str, store_id: Option<u32>, slot: usize) -> (r: Header)
        requires
            byte_len(s@) <= u32::MAX,
        ensures
            r.len as nat == byte_len(s@),
            r.store_id == store_id,
            r.slot == slot,
            r.hash == fx_str_hash(s@),
    {
        let len = s.len();
        Header { len: len as u32, store_id, slot, hash: str_hash(s) }
    }
}

/// One immutable, shared string record. Handles to it are counted by the
/// `Arc` that holds it: cloning a handle increments the count, dropping one
/// decrements it, and the record is freed when the count reaches zero.
#[derive(Debug)]
pub struct HeapAtom {
    pub header: Header,
    pub string: String,
}

impl HeapAtom {
    /// The header matches the string: exact byte length and content hash.
    pub open spec fn wf(&self) -> bool {
        &&& self.header.len as nat == byte_len(self.string@)
        &&& self.header.hash == fx_str_hash(self.string@)
    }

    pub open spec fn text(&self) -> Seq<char> {
        self.string@
    }

    pub open spec fn spec_store_id(&self) -> Option<u32> {
        self.header.store_id
    }

    pub open spec fn spec_slot(&self) -> usize {
        self.header.slot
    }

    /// A record for `s` marked with `store_id`, at slot 0. The empty
    /// string's record has the same header shape but belongs to no store.
    pub fn new(s: &str, store_id: Option<u32>) -> (r: Arc<HeapAtom>)
        requires
            byte_len(s@) <= u32::MAX,
        ensures
            r.wf(),
            r.text() == s@,
            r.spec_store_id() == (if s@.len() == 0 {
                None
            } else {
                store_id
            }),
            r.spec_slot() == 0,
    {
        if s.is_empty() {
            Self::with_slot(s, None, 0)
        } else {
            Self::with_slot(s, store_id, 0)
        }
    }

    /// A record for `s` at position `slot` of the store `store_id`.
    pub(crate) fn with_slot(s: &str, store_id: Option<u32>, slot: usize) -> (r: Arc<HeapAtom>)
        requires
            byte_len(s@) <= u32::MAX,
        ensures
            r.wf(),
            r.text() == s@,
            r.spec_store_id() == store_id,
            r.spec_slot() == slot,
    {
        let header = Header::new(s, store_id, slot);
        Arc::new(HeapAtom { header, string: s.to_owned() })
    }

    pub fn store_id(&self) -> (r: Option<u32>)
        ensures
            r == self.spec_store_id(),
    {
        self.header.store_id
    }

    pub fn slot(&self) -> (r: usize)
        ensures
            r == self.spec_slot(),
    {
        self.header.slot
    }

    pub fn len(&self) -> (r: usize)
        requires
            self.wf(),
        ensures
            r == byte_len(self.text()),
    {
        self.header.len as usize
    }

    pub fn is_empty(&self) -> (r: bool)
        requires
            self.wf(),
        ensures
            r == (self.text().len() == 0),
    {
        proof {
            vstd::utf8::encode_utf8_valid_utf8(self.string@);
            vstd::utf8::encode_utf8_decode_utf8(self.string@);
        }
        assert(encode_utf8(self.string@).len() == 0 ==> self.string@.len() == 0) by {
            if encode_utf8(self.string@).len() == 0 {
                assert(encode_utf8(self.string@) =~= Seq::<u8>::empty());
            }
        }
        self.header.len == 0
    }

    pub fn hash(&self) -> (r: u64)
        requires
            self.wf(),
        ensures
            r == fx_str_hash(self.text()),
    {
        self.header.hash
    }

    pub fn as_str(&self) -> (r: &str)
        ensures
            r@ == self.text(),
    {
        self.string.as_str()
    }
}

impl PartialEq for HeapAtom {
    /// Records are equal when their hashes and their texts are.
    fn eq(&self, other: &HeapAtom) -> (r: bool) {
        self.header.hash == other.header.hash && self.string == other.string
    }
}

impl vstd::std_specs::cmp::PartialEqSpecImpl for HeapAtom {
    open spec fn obeys_eq_spec() -> bool {
        true
    }

    open spec fn eq_spec(&self, other: &HeapAtom) -> bool {
        self.header.hash == other.header.hash && self.text() == other.text()
    }
}

impl Eq for HeapAtom {

}

} // verus!
