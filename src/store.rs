use crate::atom::Atom;
use crate::heap::{byte_len, fx_str_hash, same_text, share, str_hash, HeapAtom};
use crate::tags::MAX_INLINE_LEN;
use std::sync::Arc;
use vstd::prelude::*;

verus! {

/// Number of entries a new store reserves room for.
pub const STORE_CAPACITY: usize = 256;

/// The slots of a store's entries, filed by content hash.
#[verifier::external_body]
pub struct SlotIndex {
    map: hashbrown::HashMap<u64, Vec<usize>, nohash_hasher::BuildNoHashHasher<u64>>,
}

/// What a slot index holds: for each hash, the slots filed under it.
pub uninterp spec fn slot_index_contents(index: SlotIndex) -> Map<u64, Seq<usize>>;

impl SlotIndex {
    /// Relies on `hashbrown::HashMap::with_capacity_and_hasher`: a new map is
    /// empty. The hasher passes the `u64` key through unchanged.
    #[verifier::external_body]
    fn with_capacity(capacity: usize) -> (r: SlotIndex)
        ensures
            slot_index_contents(r).dom() == Set::<u64>::empty(),
    {
        SlotIndex {
            map: hashbrown::HashMap::with_capacity_and_hasher(capacity, Default::default()),
        }
    }

    /// Relies on `hashbrown::HashMap::get`: the value filed under the key, if
    /// there is one.
    #[verifier::external_body]
    fn get(&self, hash: u64) -> (r: Option<&Vec<usize>>)
        ensures
            r is Some <==> slot_index_contents(*self).contains_key(hash),
            r matches Some(v) ==> v@ == slot_index_contents(*self)[hash],
    {
        self.map.get(&hash)
    }

    /// Relies on `hashbrown::HashMap::insert`: afterwards the key is filed
    /// with the new value and every other key is unchanged.
    #[verifier::external_body]
    fn insert(&mut self, hash: u64, slots: Vec<usize>)
        ensures
            slot_index_contents(*final(self)) == slot_index_contents(*old(self)).insert(
                hash,
                slots@,
            ),
    {
        self.map.insert(hash, slots);
    }
}

/// The texts of a store after interning `text`: unchanged if it holds the
/// text already, else with the text added at the end.
pub open spec fn interned(texts: Seq<Seq<char>>, text: Seq<char>) -> Seq<Seq<char>> {
    if texts.contains(text) {
        texts
    } else {
        texts.push(text)
    }
}

/// Interning a text a second time leaves the store as the first time left it.
pub proof fn lemma_intern_twice(texts: Seq<Seq<char>>, text: Seq<char>)
    ensures
        interned(interned(texts, text), text) == interned(texts, text),
{
    if !texts.contains(text) {
        assert(texts.push(text)[texts.len() as int] == text);
    }
}

/// An interner: it keeps one shared heap record per distinct long text, so
/// that interning equal texts gives handles on one record.
pub struct AtomStore {
    id: u32,
    entries: Vec<Arc<HeapAtom>>,
    index: SlotIndex,
}

impl View for AtomStore {
    type V = Seq<Seq<char>>;

    /// The interned texts, in the order they were first interned.
    closed spec fn view(&self) -> Seq<Seq<char>> {
        Seq::new(self.entries@.len(), |i: int| self.entries@[i].text())
    }
}

impl AtomStore {
    pub closed spec fn spec_id(&self) -> u32 {
        self.id
    }

    /// Every entry is a valid record of a long text, stamped with this store
    /// and its own slot; texts are distinct; and each entry is filed under
    /// its hash, while every filed slot is an entry.
    pub closed spec fn wf(&self) -> bool {
        let c = slot_index_contents(self.index);
        &&& forall|i: int|
            0 <= i < self.entries@.len() ==> {
                let e = #[trigger] self.entries@[i];
                &&& e.wf()
                &&& byte_len(e.text()) > MAX_INLINE_LEN
                &&& byte_len(e.text()) <= u32::MAX
                &&& e.header.store_id == Some(self.id)
                &&& e.header.slot == i
                &&& c.contains_key(e.header.hash)
                &&& c[e.header.hash].contains(i as usize)
            }
        &&& forall|i: int, j: int|
            0 <= i < j < self.entries@.len() ==> #[trigger] self.entries@[i].text()
                != #[trigger] self.entries@[j].text()
        &&& forall|h: u64, k: int|
            c.contains_key(h) && 0 <= k < c[h].len() ==> #[trigger] c[h][k]
                < self.entries@.len()
    }

    /// An empty store with the given id. Atoms of stores with different ids
    /// are told apart by the id; the caller gives each store its own.
    pub fn with_id(id: u32) -> (r: AtomStore)
        ensures
            r.wf(),
            r@ == Seq::<Seq<char>>::empty(),
            r.spec_id() == id,
    {
        let r = AtomStore {
            id,
            entries: Vec::with_capacity(STORE_CAPACITY),
            index: SlotIndex::with_capacity(STORE_CAPACITY),
        };
        assert(r@ =~= Seq::<Seq<char>>::empty());
        r
    }

    pub fn id(&self) -> (r: u32)
        ensures
            r == self.spec_id(),
    {
        self.id
    }

    /// The number of distinct texts interned so far.
    pub fn len(&self) -> (r: usize)
        ensures
            r == self@.len(),
    {
        self.entries.len()
    }

    /// The slot of the entry that holds `text`, if there is one.
    fn find(&self, text: &str, hash: u64) -> (r: Option<usize>)
        requires
            self.wf(),
            hash == fx_str_hash(text@),
        ensures
            r matches Some(i) ==> i < self@.len() && self@[i as int] == text@,
            r is None ==> !self@.contains(text@),
    {
        let ghost c = slot_index_contents(self.index);
        match self.index.get(hash) {
            None => {
                proof {
                    if self@.contains(text@) {
                        let i = choose|i: int| 0 <= i < self@.len() && self@[i] == text@;
                        assert(self.entries@[i].text() == text@);
                    }
                }
                None
            },
            Some(slots) => {
                let mut k: usize = 0;
                while k < slots.len()
                    invariant
                        self.wf(),
                        c == slot_index_contents(self.index),
                        c.contains_key(hash),
                        slots@ == c[hash],
                        0 <= k <= slots@.len(),
                        forall|m: int| 0 <= m < k ==> self@[#[trigger] slots@[m] as int] != text@,
                    decreases slots@.len() - k,
                {
                    let slot = slots[k];
                    assert(slot < self.entries@.len());
                    if same_text(self.entries[slot].as_str(), text) {
                        return Some(slot);
                    }
                    k = k + 1;
                }
                proof {
                    if self@.contains(text@) {
                        let i = choose|i: int| 0 <= i < self@.len() && self@[i] == text@;
                        assert(self.entries@[i].text() == text@);
                        assert(c[hash].contains(i as usize));
                        let m = choose|m: int| 0 <= m < slots@.len() && slots@[m] == i as usize;
                        assert(self@[slots@[m] as int] != text@);
                    }
                }
                None
            },
        }
    }

    /// A handle on the entry for `text`, made and filed if the store lacks it.
    fn insert_entry(&mut self, text: &str, hash: u64) -> (r: Arc<HeapAtom>)
        requires
            old(self).wf(),
            hash == fx_str_hash(text@),
            MAX_INLINE_LEN < byte_len(text@) <= u32::MAX,
        ensures
            final(self).wf(),
            final(self).spec_id() == old(self).spec_id(),
            final(self)@ == interned(old(self)@, text@),
            r.wf(),
            r.text() == text@,
            r.header.store_id == Some(final(self).spec_id()),
            r.header.slot < final(self)@.len(),
            final(self)@[r.header.slot as int] == text@,
    {
        match self.find(text, hash) {
            Some(slot) => share(&self.entries[slot]),
            None => {
                let ghost c = slot_index_contents(self.index);
                let ghost old_entries = self.entries@;
                let slot = self.entries.len();
                let entry = HeapAtom::with_slot(text, Some(self.id), slot);
                let result = share(&entry);
                self.entries.push(entry);
                let mut slots = match self.index.get(hash) {
                    Some(v) => v.clone(),
                    None => Vec::new(),
                };
                slots.push(slot);
                self.index.insert(hash, slots);
                proof {
                    let c2 = slot_index_contents(self.index);
                    assert(c2 == c.insert(hash, slots@));
                    assert(self.entries@ == old_entries.push(self.entries@[slot as int]));
                    assert(forall|i: int| 0 <= i < old_entries.len() ==> #[trigger] old_entries[i].text() == old(self)@[i]);
                    assert forall|i: int, j: int|
                        0 <= i < j < self.entries@.len() implies #[trigger] self.entries@[i].text()
                        != #[trigger] self.entries@[j].text() by {
                        if j == slot {
                            assert(old(self)@[i] == old_entries[i].text());
                        }
                    }
                    assert forall|i: int| 0 <= i < self.entries@.len() implies {
                        let e = #[trigger] self.entries@[i];
                        &&& c2.contains_key(e.header.hash)
                        &&& c2[e.header.hash].contains(i as usize)
                    } by {
                        let e = self.entries@[i];
                        if i < slot {
                            assert(e == old_entries[i]);
                            if e.header.hash == hash {
                                assert(c[hash].contains(i as usize));
                                let m = choose|m: int| 0 <= m < c[hash].len() && c[hash][m] == i as usize;
                                assert(slots@[m] == i as usize);
                            }
                        } else {
                            assert(slots@[slots@.len() - 1] == slot);
                        }
                    }
                    assert forall|h: u64, k: int|
                        c2.contains_key(h) && 0 <= k < c2[h].len() implies #[trigger] c2[h][k]
                        < self.entries@.len() by {
                        if h != hash {
                            assert(c2[h] == c[h]);
                        }
                    }
                    assert(self@ =~= interned(old(self)@, text@));
                }
                result
            },
        }
    }

    /// An atom for `text`: in the word when it fits there (the store is not
    /// touched); else a handle on this store's one record of the text, made
    /// and filed on first use.
    pub fn atom(&mut self, text: &str) -> (r: Atom)
        requires
            old(self).wf(),
            byte_len(text@) <= u32::MAX,
        ensures
            final(self).wf(),
            final(self).spec_id() == old(self).spec_id(),
            r.wf(),
            r@ == text@,
            r.spec_is_heap() == (byte_len(text@) > MAX_INLINE_LEN),
            byte_len(text@) <= MAX_INLINE_LEN ==> final(self)@ == old(self)@,
            byte_len(text@) > MAX_INLINE_LEN ==> {
                &&& final(self)@ == interned(old(self)@, text@)
                &&& r.spec_store_id() == Some(final(self).spec_id())
                &&& r.spec_slot() < final(self)@.len()
                &&& final(self)@[r.spec_slot() as int] == text@
            },
    {
        if text.len() <= MAX_INLINE_LEN {
            return Atom::new_inline_impl(text);
        }
        let hash = str_hash(text);
        let entry = self.insert_entry(text, hash);
        Atom::from_heap(entry)
    }

    /// One store holds one record per text: two of its heap atoms are the
    /// same entry exactly when their texts are equal.
    pub proof fn lemma_one_record_per_text(&self, a: Atom, b: Atom)
        requires
            self.wf(),
            a.wf(),
            b.wf(),
            a.spec_is_heap(),
            b.spec_is_heap(),
            a.spec_store_id() == Some(self.spec_id()),
            b.spec_store_id() == Some(self.spec_id()),
            a.spec_slot() < self@.len(),
            b.spec_slot() < self@.len(),
            self@[a.spec_slot() as int] == a@,
            self@[b.spec_slot() as int] == b@,
        ensures
            a@ == b@ <==> a.spec_slot() == b.spec_slot(),
    {
        let i = a.spec_slot() as int;
        let j = b.spec_slot() as int;
        assert(self@[i] == self.entries@[i].text());
        assert(self@[j] == self.entries@[j].text());
    }
}

} // verus!
