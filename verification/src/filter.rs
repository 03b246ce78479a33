//! Key filters: which keys of a namespace a listing asks for.
use vstd::prelude::*;
use vstd::string::*;

verus! {

/// The keys that a listing asks for.
#[derive(Clone, Debug, PartialEq, Eq)]
pub enum KeyFilter {
    /// Every key of the namespace.
    All,
    /// The listed keys and no others.
    Only(Vec<String>),
}

/// A key filter with its keys as character sequences.
pub enum KeyFilterView {
    All,
    Only(Seq<Seq<char>>),
}

impl KeyFilterView {
    /// Whether the filter lets `key` through.
    pub open spec fn accepts(self, key: Seq<char>) -> bool {
        match self {
            KeyFilterView::All => true,
            KeyFilterView::Only(keys) => keys.contains(key),
        }
    }

    /// The filter that a list of requested keys stands for: no keys at all mean every key.
    pub open spec fn from_keys(keys: Seq<Seq<char>>) -> KeyFilterView {
        if keys.len() == 0 {
            KeyFilterView::All
        } else {
            KeyFilterView::Only(keys)
        }
    }
}

impl View for KeyFilter {
    type V = KeyFilterView;

    open spec fn view(&self) -> KeyFilterView {
        match self {
            KeyFilter::All => KeyFilterView::All,
            KeyFilter::Only(keys) => KeyFilterView::Only(keys.deep_view()),
        }
    }
}

impl DeepView for KeyFilter {
    type V = KeyFilterView;

    open spec fn deep_view(&self) -> KeyFilterView {
        self@
    }
}

impl KeyFilter {
    /// The filter for a list of requested keys. An empty list asks for every key.
    pub fn from_keys(keys: Vec<String>) -> (r: KeyFilter)
        ensures
            r@ == KeyFilterView::from_keys(keys.deep_view()),
    {
        if keys.len() == 0 {
            KeyFilter::All
        } else {
            KeyFilter::Only(keys)
        }
    }

    /// Whether the filter lets `key` through.
    pub fn accepts(&self, key: &str) -> (r: bool)
        ensures
            r == self@.accepts(key@),
    {
        match self {
            KeyFilter::All => true,
            KeyFilter::Only(keys) => {
                let mut i: usize = 0;
                while i < keys.len()
                    invariant
                        i <= keys.len(),
                        self@ == KeyFilterView::Only(keys.deep_view()),
                        forall|j: int| 0 <= j < i ==> keys.deep_view()[j] != key@,
                    decreases keys.len() - i,
                {
                    if keys[i].as_str().eq(key) {
                        assert(keys.deep_view()[i as int] == key@);
                        return true;
                    }
                    i += 1;
                }
                false
            },
        }
    }
}

} // verus!
