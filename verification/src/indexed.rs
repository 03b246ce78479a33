//! The attribute-indexed backend's view of a search: which of the found
//! entries belong to the listing, which of those must be unlocked, and in
//! which order their secrets are read.
use vstd::prelude::*;
use vstd::string::*;
use crate::entries::{lemma_position_is, lookup, Entries};
use crate::filter::{KeyFilter, KeyFilterView};

verus! {

/// The name of the attribute that holds an entry's key.
pub open spec fn key_attribute() -> Seq<char> {
    "env"@
}

/// The name of the attribute that holds an entry's namespace.
pub open spec fn namespace_attribute() -> Seq<char> {
    "namespace"@
}

/// The name of the attribute that marks an entry as one of this store's.
pub open spec fn application_attribute() -> Seq<char> {
    "app"@
}

/// The value of the application attribute on every entry of this store.
pub open spec fn application_id() -> Seq<char> {
    "env-secrets"@
}

/// The content type under which secrets are stored.
pub open spec fn secret_content_type() -> Seq<char> {
    "text/plain"@
}

/// The attributes that tag the entries of a namespace and, with a key, the
/// one entry of that key.
pub open spec fn entry_attributes(namespace: Seq<char>, key: Option<Seq<char>>) -> Entries {
    let base = seq![(application_attribute(), application_id()), (namespace_attribute(), namespace)];
    match key {
        Some(k) => base.push((key_attribute(), k)),
        None => base,
    }
}

/// The label of the entry that holds `key` in `namespace`.
pub open spec fn entry_label(namespace: Seq<char>, key: Seq<char>) -> Seq<char> {
    "env-secrets/"@ + namespace + "/"@ + key
}

/// One entry that a search found: its attributes, as the vault reports them.
#[derive(Clone, Debug, PartialEq, Eq)]
pub struct FoundEntry {
    pub attributes: Vec<(String, String)>,
}

impl View for FoundEntry {
    type V = Entries;

    open spec fn view(&self) -> Entries {
        self.attributes.deep_view()
    }
}

impl DeepView for FoundEntry {
    type V = Entries;

    open spec fn deep_view(&self) -> Entries {
        self@
    }
}

/// An entry that belongs to the listing: where the search reported it (in the
/// locked or the unlocked part, and at which index there) and its key.
#[derive(Clone, Debug, PartialEq, Eq)]
pub struct Candidate {
    pub locked: bool,
    pub key: String,
    pub index: usize,
}

/// A candidate with its key as a character sequence.
pub struct CandidateView {
    pub locked: bool,
    pub key: Seq<char>,
    pub index: usize,
}

impl View for Candidate {
    type V = CandidateView;

    open spec fn view(&self) -> CandidateView {
        CandidateView { locked: self.locked, key: self.key@, index: self.index }
    }
}

impl DeepView for Candidate {
    type V = CandidateView;

    open spec fn deep_view(&self) -> CandidateView {
        self@
    }
}

/// Whether the entry with these attributes belongs to the listing: it names
/// its key, and the filter lets that key through.
pub open spec fn is_wanted(attributes: Entries, filter: KeyFilterView) -> bool {
    match lookup(attributes, key_attribute()) {
        Some(key) => filter.accepts(key),
        None => false,
    }
}

/// The candidates among `items`, in order. Entries without a key attribute
/// are left out, and so are those whose key the filter does not let through.
pub open spec fn collected(items: Seq<Entries>, filter: KeyFilterView, locked: bool) -> Seq<
    CandidateView,
>
    decreases items.len(),
{
    if items.len() == 0 {
        Seq::empty()
    } else {
        let before = collected(items.drop_last(), filter, locked);
        if is_wanted(items.last(), filter) {
            before.push(
                CandidateView {
                    locked,
                    key: lookup(items.last(), key_attribute())->Some_0,
                    index: (items.len() - 1) as usize,
                },
            )
        } else {
            before
        }
    }
}

/// The candidates of a whole search: those of the locked part, then those of
/// the unlocked part.
pub open spec fn candidates_of(
    locked: Seq<Entries>,
    unlocked: Seq<Entries>,
    filter: KeyFilterView,
) -> Seq<CandidateView> {
    collected(locked, filter, true) + collected(unlocked, filter, false)
}

/// The indices, in the locked part of the search, of the candidates that are locked.
pub open spec fn locked_indices(candidates: Seq<CandidateView>) -> Seq<usize>
    decreases candidates.len(),
{
    if candidates.len() == 0 {
        Seq::empty()
    } else if candidates.last().locked {
        locked_indices(candidates.drop_last()).push(candidates.last().index)
    } else {
        locked_indices(candidates.drop_last())
    }
}

impl FoundEntry {
    /// The value of the attribute `name`, if the entry has it.
    pub fn attribute(&self, name: &str) -> (r: Option<&String>)
        ensures
            r.deep_view() == lookup(self@, name@),
    {
        let mut i: usize = 0;
        while i < self.attributes.len()
            invariant
                i <= self.attributes.len(),
                forall|j: int| 0 <= j < i ==> (#[trigger] self@[j]).0 != name@,
            decreases self.attributes.len() - i,
        {
            if self.attributes[i].0.as_str().eq(name) {
                proof {
                    lemma_position_is(self@, name@, i as int);
                }
                return Some(&self.attributes[i].1);
            }
            i += 1;
        }
        proof {
            lemma_position_is(self@, name@, i as int);
        }
        None
    }

    /// The key that the entry names as its own, if it names one.
    pub fn key(&self) -> (r: Option<&String>)
        ensures
            r.deep_view() == lookup(self@, key_attribute()),
    {
        self.attribute("env")
    }
}

/// Adds to `acc` the candidates among `items`, which the search reported in
/// its locked part (`locked`) or in its unlocked part.
pub fn collect_items(
    acc: &mut Vec<Candidate>,
    items: &Vec<FoundEntry>,
    filter: &KeyFilter,
    locked: bool,
)
    ensures
        final(acc).deep_view() == old(acc).deep_view() + collected(
            items.deep_view(),
            filter@,
            locked,
        ),
{
    let ghost start = acc.deep_view();
    let mut i: usize = 0;
    assert(items.deep_view().take(0) =~= Seq::<Entries>::empty());
    assert(acc.deep_view() =~= start + collected(items.deep_view().take(0), filter@, locked));
    while i < items.len()
        invariant
            i <= items.len(),
            acc.deep_view() == start + collected(items.deep_view().take(i as int), filter@, locked),
        decreases items.len() - i,
    {
        let ghost next = items.deep_view().take(i + 1);
        let ghost before = acc.deep_view();
        assert(next.drop_last() =~= items.deep_view().take(i as int));
        assert(next.last() == items[i as int]@);
        match items[i].key() {
            Some(key) => {
                if filter.accepts(key.as_str()) {
                    acc.push(Candidate { locked, key: key.clone(), index: i });
                    assert(acc.deep_view() =~= before.push(
                        CandidateView { locked, key: key@, index: i },
                    ));
                }
            },
            None => {},
        }
        assert(acc.deep_view() =~= start + collected(next, filter@, locked));
        i += 1;
    }
    assert(items.deep_view().take(i as int) =~= items.deep_view());
}

/// The indices, in the locked part of the search, of the candidates that are locked.
pub fn locked_entries(candidates: &Vec<Candidate>) -> (r: Vec<usize>)
    ensures
        r@ == locked_indices(candidates.deep_view()),
{
    let mut out: Vec<usize> = Vec::new();
    let mut i: usize = 0;
    assert(candidates.deep_view().take(0) =~= Seq::<CandidateView>::empty());
    while i < candidates.len()
        invariant
            i <= candidates.len(),
            out@ == locked_indices(candidates.deep_view().take(i as int)),
        decreases candidates.len() - i,
    {
        let ghost next = candidates.deep_view().take(i + 1);
        assert(next.drop_last() =~= candidates.deep_view().take(i as int));
        assert(next.last() == candidates[i as int]@);
        if candidates[i].locked {
            out.push(candidates[i].index);
        }
        i += 1;
    }
    assert(candidates.deep_view().take(i as int) =~= candidates.deep_view());
    out
}

} // verus!
