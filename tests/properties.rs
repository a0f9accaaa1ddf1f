use compact_atom::{Atom, AtomStore, Header, HeapAtom, Tag, TaggedValue, MAX_INLINE_LEN};
use std::collections::HashSet;
use std::hash::{Hash, Hasher};
use std::sync::Arc;

fn fx_hash(s: &str) -> u64 {
    let mut hasher = rustc_hash::FxHasher::default();
    s.hash(&mut hasher);
    hasher.finish()
}

fn std_hash(a: &Atom) -> u64 {
    let mut hasher = std::collections::hash_map::DefaultHasher::new();
    a.hash(&mut hasher);
    hasher.finish()
}

#[test]
fn short_strings_are_inline_with_their_text() {
    for s in ["", "a", "ab", "abc", "é", "日本", "🦀", "abcdefg", "\u{0}x"] {
        let a = Atom::new(s);
        assert!(!a.is_heap(), "{s:?}");
        assert_eq!(a.len(), s.len());
        assert_eq!(a.as_str(), s);
    }
}

#[test]
fn long_strings_are_on_the_heap() {
    for s in ["abcdefgh", "日本語", "🦀🦀", "a much longer string than the word"] {
        let a = Atom::new(s);
        assert!(a.is_heap(), "{s:?}");
        assert_eq!(a.len(), s.len());
        assert_eq!(a.as_str(), s);
    }
}

#[test]
fn inline_boundary_on_a_64_bit_word() {
    assert_eq!(MAX_INLINE_LEN, 7);
    assert!(!Atom::new("aaaaaaa").is_heap());
    assert!(Atom::new("aaaaaaaa").is_heap());
}

#[test]
fn round_trip_keeps_the_text() {
    let texts = [
        "",
        "x",
        "héllo",
        "ünïcödé text that is long",
        "🦀🦀🦀",
        "tab\tand\nnewline",
        "日本語のテキスト",
    ];
    for s in texts {
        assert_eq!(Atom::new(s).as_str(), s);
        assert_eq!(&*Atom::new(s), s);
        assert_eq!(Atom::new(s).as_ref(), s);
        assert!(Atom::new(s) == *s);
    }
}

#[test]
fn interning_within_one_store() {
    let mut store = AtomStore::with_id(7);
    assert_eq!(store.atom("dup"), store.atom("dup"));
    assert_eq!(store.len(), 0);

    let long = "duplicated identifier";
    let a = store.atom(long);
    let b = store.atom(long);
    assert_eq!(a, b);
    assert!(std::ptr::eq(a.heap_atom().unwrap(), b.heap_atom().unwrap()));
    assert_eq!(store.len(), 1);
    let c = store.atom(long);
    assert_eq!(store.len(), 1);
    assert_eq!(c, a);

    let d = store.atom("another long identifier");
    assert_eq!(store.len(), 2);
    assert_ne!(d, a);
    assert_eq!(d.heap_atom().unwrap().store_id(), Some(7));
    assert_eq!(store.id(), 7);
}

#[test]
fn interning_across_stores() {
    let mut s1 = AtomStore::with_id(1);
    let mut s2 = AtomStore::with_id(2);
    assert_eq!(s1.atom("dup"), s2.atom("dup"));

    let a = s1.atom("shared long text");
    let b = s2.atom("shared long text");
    assert!(!std::ptr::eq(a.heap_atom().unwrap(), b.heap_atom().unwrap()));
    assert_eq!(a, b);
    assert_eq!(a.get_hash(), b.get_hash());
    assert_eq!(std_hash(&a), std_hash(&b));
}

#[test]
fn atoms_survive_their_store() {
    let mut store = AtomStore::with_id(3);
    let a = store.atom("outlives the store");
    drop(store);
    assert_eq!(a.as_str(), "outlives the store");
}

#[test]
fn reference_count_follows_clones_and_drops() {
    let record = HeapAtom::new("counted heap text", None);
    let watch = Arc::downgrade(&record);
    let original = Atom::from_heap(record);
    assert_eq!(watch.strong_count(), 1);

    let n = 5;
    let clones: Vec<Atom> = (0..n).map(|_| original.clone()).collect();
    assert_eq!(watch.strong_count(), n + 1);

    let mut clones = clones;
    while let Some(c) = clones.pop() {
        assert_eq!(c.as_str(), "counted heap text");
        drop(c);
        assert!(watch.strong_count() > 0);
    }
    assert_eq!(watch.strong_count(), 1);
    assert_eq!(original.as_str(), "counted heap text");
    drop(original);
    assert_eq!(watch.strong_count(), 0);
    assert!(watch.upgrade().is_none());
}

#[test]
fn equal_atoms_hash_alike() {
    let mut store = AtomStore::with_id(9);
    let atoms = vec![
        Atom::new("x"),
        Atom::new("x"),
        Atom::new("a long text value"),
        Atom::new("a long text value"),
        store.atom("a long text value"),
        store.atom("x"),
        Atom::new("another long text"),
        Atom::empty(),
    ];
    for a in &atoms {
        for b in &atoms {
            if a == b {
                assert_eq!(a.get_hash(), b.get_hash());
                assert_eq!(std_hash(a), std_hash(b));
            }
            assert_eq!(a == b, a.as_str() == b.as_str());
        }
    }
    let set: HashSet<Atom> = atoms.into_iter().collect();
    assert_eq!(set.len(), 4);
}

#[test]
fn empty_atom() {
    assert_eq!(Atom::empty().len(), 0);
    assert!(Atom::empty().is_empty());
    assert!(!Atom::new("").is_heap());
    assert_eq!(Atom::empty(), Atom::new(""));
    assert!(!Atom::new("a").is_empty());
}

#[test]
fn inline_hash_is_the_raw_word() {
    assert_eq!(Atom::empty().get_hash(), 0x01);
    assert_eq!(Atom::new("a").get_hash(), 0x6111);
    assert_eq!(Atom::new("ab").get_hash(), 0x0062_6121);
    assert_eq!(
        Atom::new("abcdefg").get_hash(),
        u64::from_le_bytes([0x71, b'a', b'b', b'c', b'd', b'e', b'f', b'g'])
    );
}

#[test]
fn heap_hash_is_the_fx_hash_of_the_text() {
    let s = "heap resident text";
    assert_eq!(Atom::new(s).get_hash(), fx_hash(s));
    assert_eq!(HeapAtom::new(s, None).hash(), fx_hash(s));
    assert_ne!(Atom::new(s).get_hash(), Atom::new("heap resident texT").get_hash());
}

#[test]
fn unstored_heap_atoms_compare_by_text() {
    assert_eq!(Atom::new("same long text"), Atom::new("same long text"));
    assert_ne!(Atom::new("same long text"), Atom::new("same long texT"));
    assert_ne!(Atom::new("abcdefgh"), Atom::new("abcdefg"));
}

#[test]
fn clone_keeps_the_text_and_the_record() {
    let a = Atom::new("cloned long text");
    let b = a.clone();
    assert_eq!(a, b);
    assert!(std::ptr::eq(a.heap_atom().unwrap(), b.heap_atom().unwrap()));
    let c = Atom::new("tiny").clone();
    assert_eq!(c.as_str(), "tiny");
}

#[test]
fn tagged_word_layout() {
    assert!(Tag::HeapOwned.is_heap_owned());
    assert!(Tag::Inline.is_inline());
    assert_eq!(Tag::new_unchecked(0), Tag::HeapOwned);
    assert_eq!(Tag::new_unchecked(1), Tag::Inline);

    let mut v = TaggedValue::new_inline(3);
    assert_eq!(v.tag_byte(), 0x31);
    assert_eq!(v.as_bytes(), &[0u8; 7]);
    v.write_payload(b"abc");
    assert_eq!(v.as_bytes(), &[b'a', b'b', b'c', 0, 0, 0, 0]);
    assert_eq!(v.len(), 3);
    assert_eq!(v.tag(), Tag::Inline);
    assert_eq!(v.inline_str(), "abc");
    assert_eq!(v.hash(), 0x0063_6261_31);
    assert!(v.get_ptr().is_none());

    let p = TaggedValue::new_ptr(HeapAtom::new("pointer text", Some(4)));
    assert_eq!(p.tag(), Tag::HeapOwned);
    assert_eq!(p.get_ptr().unwrap().as_str(), "pointer text");
}

#[test]
fn heap_record_header() {
    let h = HeapAtom::new("record text here", Some(5));
    assert_eq!(h.len(), 16);
    assert!(!h.is_empty());
    assert_eq!(h.store_id(), Some(5));
    assert_eq!(h.slot(), 0);
    assert_eq!(h.header.len, 16);
    assert_eq!(h.header.hash, fx_hash("record text here"));
    assert!(HeapAtom::new("", None).is_empty());
}

#[test]
fn text_comparison_by_bytes() {
    assert!(compact_atom::heap::same_text("héllo", "héllo"));
    assert!(!compact_atom::heap::same_text("héllo", "hello"));
    assert!(!compact_atom::heap::same_text("ab", "abc"));
}

/// A heap atom whose header carries `hash` instead of the text's own hash.
/// Such a record breaks `from_heap`'s requirement on purpose: no two real
/// texts with colliding hashes are at hand, and this is the only way to reach
/// the final text comparison of `==`.
fn forged(text: &str, hash: u64) -> Atom {
    let record = HeapAtom {
        header: Header { len: text.len() as u32, store_id: None, slot: 0, hash },
        string: text.to_string(),
    };
    Atom::from_heap(Arc::new(record))
}

#[test]
fn equal_hashes_still_compare_the_texts() {
    let a = forged("first long text", 42);
    let b = forged("other long text", 42);
    assert_eq!(a.get_hash(), b.get_hash());
    assert_ne!(a, b);
    assert_ne!(b, a);
    assert_eq!(forged("first long text", 42), a);
}

#[test]
fn stores_sharing_an_id_still_compare_by_text() {
    let mut s1 = AtomStore::with_id(5);
    let mut s2 = AtomStore::with_id(5);
    let _x = s1.atom("xxxxxxxxxx");
    let y1 = s1.atom("yyyyyyyyyy");
    let y2 = s2.atom("yyyyyyyyyy");
    assert_eq!(y1, y2);
    assert_eq!(y2, y1);
    let mut s3 = AtomStore::with_id(6);
    let y3 = s3.atom("yyyyyyyyyy");
    assert_eq!(y1, y3);
    assert_eq!(y2, y3);
}

#[test]
fn atoms_compare_with_plain_strings() {
    let short = Atom::new("abc");
    let long = Atom::new("a long plain string");
    assert!(short == "abc");
    assert!(long == "a long plain string");
    assert!(long != "a long plain strinG");
    assert!(*"abc" == short);
    assert!(*"a long plain string" == long);
    assert!(!(*"abd" == short));
}

#[test]
fn empty_record_belongs_to_no_store() {
    let empty = HeapAtom::new("", Some(1));
    assert_eq!(empty.store_id(), None);
    assert_eq!(empty.len(), 0);
    assert_eq!(HeapAtom::new("x", Some(1)).store_id(), Some(1));
}

#[test]
fn short_atoms_of_one_store_are_identical() {
    let mut store = AtomStore::with_id(11);
    let a = store.atom("dup");
    let b = store.atom("dup");
    assert_eq!(a.get_hash(), b.get_hash());
    assert!(a.heap_atom().is_none() && b.heap_atom().is_none());
    assert_eq!(a, b);
}
