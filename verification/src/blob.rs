//! The mapping of one namespace, as the single-blob backend keeps it: every
//! secret of the namespace in one serialized document.
use vstd::prelude::*;
use vstd::string::*;
use crate::codec::{json_object_bytes, json_object_entries, parse_object, write_object};
use crate::entries::{
    collect, distinct_keys, insert, lemma_insert_distinct, lemma_lookup_entry, lemma_lookup_witness,
    lemma_position_is, lookup, mapping, position, Entries,
};
use crate::filter::{KeyFilter, KeyFilterView};
use crate::record::{SecretRecord, SecretRecordView};

verus! {

/// The record that stands for one entry of a blob. A blob knows no lock state.
pub open spec fn entry_record(entry: (Seq<char>, Seq<char>)) -> SecretRecordView {
    SecretRecordView { key: entry.0, value: entry.1, lock: None }
}

/// The records of the entries that the filter lets through, in the entries' order.
pub open spec fn blob_records(e: Entries, filter: KeyFilterView) -> Seq<SecretRecordView>
    decreases e.len(),
{
    if e.len() == 0 {
        Seq::empty()
    } else if filter.accepts(e.last().0) {
        blob_records(e.drop_last(), filter).push(entry_record(e.last()))
    } else {
        blob_records(e.drop_last(), filter)
    }
}

/// The bytes of a fetched blob, if there is one.
pub open spec fn bytes_view(fetched: Option<Vec<u8>>) -> Option<Seq<u8>> {
    match fetched {
        Some(bytes) => Some(bytes@),
        None => None,
    }
}

/// The mapping that a fetched blob stands for. An absent blob is an empty
/// mapping; bytes that do not parse stand for nothing.
pub open spec fn decode_blob(fetched: Option<Seq<u8>>) -> Option<Entries> {
    match fetched {
        None => Some(Seq::empty()),
        Some(bytes) => match json_object_entries(bytes) {
            Some(raw) => Some(collect(raw)),
            None => None,
        },
    }
}

/// The bytes read back as the very mapping that the entries stand for.
pub open spec fn reads_back(bytes: Seq<u8>, e: Entries) -> bool {
    match json_object_entries(bytes) {
        Some(raw) => mapping(collect(raw)) == mapping(e),
        None => false,
    }
}

/// The bytes to store for a mapping: its serialized form, provided that it
/// reads back as the same mapping.
pub open spec fn encode_blob(e: Entries) -> Option<Seq<u8>> {
    match json_object_bytes(e) {
        Some(bytes) => if reads_back(bytes, e) {
            Some(bytes)
        } else {
            None
        },
        None => None,
    }
}

/// Every key that `a` maps is mapped by `b` to the same value.
pub open spec fn included(a: Entries, b: Entries) -> bool {
    forall|k: Seq<char>| #[trigger] lookup(a, k) is Some ==> lookup(b, k) == lookup(a, k)
}

/// Mappings that include each other are equal.
pub proof fn lemma_included_both(a: Entries, b: Entries)
    ensures
        (included(a, b) && included(b, a)) <==> mapping(a) == mapping(b),
{
    let ma = mapping(a);
    let mb = mapping(b);
    if included(a, b) && included(b, a) {
        assert forall|k: Seq<char>| #[trigger] ma.dom().contains(k) == mb.dom().contains(k) by {
            if lookup(a, k) is Some {
            }
            if lookup(b, k) is Some {
            }
        }
        assert forall|k: Seq<char>| ma.dom().contains(k) implies #[trigger] ma[k] == mb[k] by {
            assert(lookup(a, k) is Some);
        }
        assert(ma =~= mb);
    }
    if ma == mb {
        assert forall|k: Seq<char>| #[trigger] lookup(a, k) is Some implies lookup(b, k) == lookup(
            a,
            k,
        ) by {
            assert(ma.dom().contains(k));
            assert(mb.dom().contains(k));
            assert(ma[k] == mb[k]);
        }
        assert forall|k: Seq<char>| #[trigger] lookup(b, k) is Some implies lookup(a, k) == lookup(
            b,
            k,
        ) by {
            assert(mb.dom().contains(k));
            assert(ma.dom().contains(k));
            assert(ma[k] == mb[k]);
        }
    }
}

/// The secrets of one namespace, each under its key. The pairs are kept in
/// a list in which no key occurs twice, so that a lookup and a change are
/// proved of the pairs themselves and rest on no hashing of strings.
#[derive(Debug)]
pub struct NamespaceBlob {
    entries: Vec<(String, String)>,
}

impl View for NamespaceBlob {
    type V = Entries;

    closed spec fn view(&self) -> Entries {
        self.entries.deep_view()
    }
}

impl NamespaceBlob {
    /// No key occurs twice.
    pub open spec fn wf(&self) -> bool {
        distinct_keys(self@)
    }

    /// Every blob is well formed.
    #[verifier::type_invariant]
    spec fn is_sound(self) -> bool {
        self.wf()
    }

    /// The empty mapping.
    pub fn new() -> (r: NamespaceBlob)
        ensures
            r.wf(),
            r@ == Seq::<(Seq<char>, Seq<char>)>::empty(),
    {
        let r = NamespaceBlob { entries: Vec::new() };
        assert(r@ =~= Seq::<(Seq<char>, Seq<char>)>::empty());
        r
    }

    /// The number of secrets.
    pub fn len(&self) -> (n: usize)
        ensures
            n == self@.len(),
    {
        self.entries.len()
    }

    /// The pairs of the mapping, in order.
    pub fn entries(&self) -> (r: &Vec<(String, String)>)
        ensures
            r.deep_view() == self@,
    {
        &self.entries
    }

    /// The index of the entry under `key`, or the number of entries where there is none.
    fn find(&self, key: &str) -> (i: usize)
        ensures
            i == position(self@, key@),
            i <= self@.len(),
    {
        let mut i: usize = 0;
        while i < self.entries.len()
            invariant
                i <= self.entries.len(),
                self@ == self.entries.deep_view(),
                forall|j: int| 0 <= j < i ==> (#[trigger] self@[j]).0 != key@,
            decreases self.entries.len() - i,
        {
            if self.entries[i].0.as_str().eq(key) {
                proof {
                    lemma_position_is(self@, key@, i as int);
                }
                return i;
            }
            i += 1;
        }
        proof {
            lemma_position_is(self@, key@, i as int);
        }
        i
    }

    /// The secret under `key`, if the mapping holds one.
    pub fn get(&self, key: &str) -> (r: Option<&String>)
        ensures
            r.deep_view() == lookup(self@, key@),
    {
        let i = self.find(key);
        if i < self.entries.len() {
            Some(&self.entries[i].1)
        } else {
            None
        }
    }

    /// The mapping with `key` set to `value`, in place of the secret that was there.
    pub fn insert(self, key: String, value: String) -> (r: NamespaceBlob)
        ensures
            r.wf(),
            r@ == insert(self@, key@, value@),
    {
        let i = self.find(key.as_str());
        proof {
            use_type_invariant(&self);
            lemma_insert_distinct(self@, key@, value@);
        }
        let ghost before = self@;
        let ghost k = key@;
        let ghost v = value@;
        let NamespaceBlob { entries } = self;
        let mut entries = entries;
        if i < entries.len() {
            entries.set(i, (key, value));
            assert(entries.deep_view() =~= before.update(i as int, (k, v)));
        } else {
            entries.push((key, value));
            assert(entries.deep_view() =~= before.push((k, v)));
        }
        NamespaceBlob { entries }
    }

    /// The mapping that results from setting each of the pairs in turn.
    pub fn from_entries(raw: &Vec<(String, String)>) -> (r: NamespaceBlob)
        ensures
            r.wf(),
            r@ == collect(raw.deep_view()),
    {
        let mut blob = NamespaceBlob::new();
        let mut i: usize = 0;
        assert(raw.deep_view().take(0) =~= Seq::<(Seq<char>, Seq<char>)>::empty());
        while i < raw.len()
            invariant
                i <= raw.len(),
                blob.wf(),
                blob@ == collect(raw.deep_view().take(i as int)),
            decreases raw.len() - i,
        {
            let ghost next = raw.deep_view().take(i + 1);
            assert(next.drop_last() =~= raw.deep_view().take(i as int));
            assert(next.last() == (raw[i as int].0@, raw[i as int].1@));
            blob = blob.insert(raw[i].0.clone(), raw[i].1.clone());
            i += 1;
        }
        assert(raw.deep_view().take(i as int) =~= raw.deep_view());
        blob
    }

    /// The records of the secrets that the filter lets through.
    pub fn records(&self, filter: &KeyFilter) -> (r: Vec<SecretRecord>)
        ensures
            r.deep_view() == blob_records(self@, filter@),
    {
        let mut out: Vec<SecretRecord> = Vec::new();
        let mut i: usize = 0;
        assert(self@.take(0) =~= Seq::<(Seq<char>, Seq<char>)>::empty());
        assert(out.deep_view() =~= blob_records(self@.take(0), filter@));
        while i < self.entries.len()
            invariant
                i <= self.entries.len(),
                self@ == self.entries.deep_view(),
                out.deep_view() == blob_records(self@.take(i as int), filter@),
            decreases self.entries.len() - i,
        {
            let ghost next = self@.take(i + 1);
            let ghost before = out.deep_view();
            assert(next.drop_last() =~= self@.take(i as int));
            assert(next.last() == self@[i as int]);
            if filter.accepts(self.entries[i].0.as_str()) {
                let record = SecretRecord {
                    key: self.entries[i].0.clone(),
                    value: self.entries[i].1.clone(),
                    lock: None,
                };
                out.push(record);
                assert(out.deep_view() =~= before.push(entry_record(self@[i as int])));
            }
            i += 1;
        }
        assert(self@.take(i as int) =~= self@);
        out
    }

    /// Whether every key of this mapping has the same value in `other`.
    fn included_in(&self, other: &NamespaceBlob) -> (r: bool)
        requires
            self.wf(),
        ensures
            r == included(self@, other@),
    {
        let mut i: usize = 0;
        while i < self.entries.len()
            invariant
                i <= self.entries.len(),
                self.wf(),
                self@ == self.entries.deep_view(),
                forall|j: int|
                    0 <= j < i ==> lookup(other@, (#[trigger] self@[j]).0) == Some(self@[j].1),
            decreases self.entries.len() - i,
        {
            proof {
                lemma_lookup_entry(self@, i as int);
            }
            let same = match other.get(self.entries[i].0.as_str()) {
                Some(v) => v.as_str().eq(self.entries[i].1.as_str()),
                None => false,
            };
            if !same {
                assert(lookup(self@, self@[i as int].0) is Some);
                return false;
            }
            i += 1;
        }
        proof {
            assert forall|k: Seq<char>| #[trigger] lookup(self@, k) is Some implies lookup(
                other@,
                k,
            ) == lookup(self@, k) by {
                lemma_lookup_witness(self@, k);
                let p = position(self@, k);
                assert(self@[p].0 == k);
            }
        }
        true
    }

    /// Whether the two hold the same secrets under the same keys.
    pub fn same_mapping(&self, other: &NamespaceBlob) -> (r: bool)
        ensures
            r == (mapping(self@) == mapping(other@)),
    {
        proof {
            use_type_invariant(self);
            use_type_invariant(other);
            lemma_included_both(self@, other@);
        }
        self.included_in(other) && other.included_in(self)
    }

    /// Reads a fetched blob. An absent blob is the empty mapping; bytes that
    /// are no serialized mapping give `None`.
    pub fn decode(fetched: &Option<Vec<u8>>) -> (r: Option<NamespaceBlob>)
        ensures
            match r {
                Some(blob) => blob.wf() && decode_blob(bytes_view(*fetched)) == Some(blob@),
                None => decode_blob(bytes_view(*fetched)) is None,
            },
    {
        match fetched {
            None => Some(NamespaceBlob::new()),
            Some(bytes) => {
                match parse_object(bytes.as_slice()) {
                    Ok(raw) => Some(NamespaceBlob::from_entries(&raw)),
                    Err(_) => None,
                }
            },
        }
    }

    /// Serializes the mapping and checks that the bytes read back as the same
    /// mapping, so that what is stored can be found again. Gives `None` where
    /// the mapping cannot be serialized or does not read back.
    pub fn encode(&self) -> (r: Option<Vec<u8>>)
        ensures
            bytes_view(r) == encode_blob(self@),
    {
        proof {
            use_type_invariant(self);
        }
        match write_object(&self.entries) {
            Ok(bytes) => {
                match parse_object(bytes.as_slice()) {
                    Ok(raw) => {
                        let again = NamespaceBlob::from_entries(&raw);
                        if again.same_mapping(self) {
                            Some(bytes)
                        } else {
                            None
                        }
                    },
                    Err(_) => None,
                }
            },
            Err(_) => None,
        }
    }
}

} // verus!
