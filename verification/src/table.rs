//! String-keyed tables, held as association lists whose view is a `Map`.
//! A later entry for a key overwrites an earlier one, exactly as the map
//! view's `insert` does; lookups therefore scan from the back.

use vstd::prelude::*;

use crate::model::ValueModel;
use crate::text::str_eq;
use crate::value::InnerData;

verus! {

/// Map view of an association list: later entries overwrite earlier ones.
pub open spec fn assoc_map_of<V: View>(entries: Seq<(String, V)>) -> Map<Seq<char>, V::V>
    decreases entries.len(),
{
    if entries.len() == 0 {
        Map::empty()
    } else {
        assoc_map_of(entries.drop_last()).insert(entries.last().0@, entries.last().1@)
    }
}

/// The map view holds a key exactly when some entry carries it.
proof fn lemma_assoc_contains<V: View>(entries: Seq<(String, V)>, k: Seq<char>)
    ensures
        assoc_map_of(entries).contains_key(k) <==> exists|i: int|
            0 <= i < entries.len() && entries[i].0@ == k,
    decreases entries.len(),
{
    if entries.len() > 0 {
        lemma_assoc_contains(entries.drop_last(), k);
        if entries.last().0@ == k {
            assert(entries[entries.len() - 1].0@ == k);
        } else {
            if assoc_map_of(entries).contains_key(k) {
                let i = choose|i: int|
                    0 <= i < entries.drop_last().len() && entries.drop_last()[i].0@ == k;
                assert(entries[i].0@ == k);
            }
            if exists|i: int| 0 <= i < entries.len() && entries[i].0@ == k {
                let i = choose|i: int| 0 <= i < entries.len() && entries[i].0@ == k;
                assert(i < entries.len() - 1);
                assert(entries.drop_last()[i].0@ == k);
            }
        }
    }
}

/// With the last matching entry at `i`, the map view yields that entry's value.
proof fn lemma_assoc_last_match<V: View>(entries: Seq<(String, V)>, k: Seq<char>, i: int)
    requires
        0 <= i < entries.len(),
        entries[i].0@ == k,
        forall|j: int| i < j < entries.len() ==> entries[j].0@ != k,
    ensures
        assoc_map_of(entries).contains_key(k),
        assoc_map_of(entries)[k] == entries[i].1@,
    decreases entries.len(),
{
    if i < entries.len() - 1 {
        assert(entries.drop_last()[i].0@ == k);
        lemma_assoc_last_match(entries.drop_last(), k, i);
    }
}

/// The transient token map of the first pass: a raw option token, dashes and
/// all, to the raw value that followed it (or the marker `true`).
pub(crate) struct TokenMap {
    entries: Vec<(String, String)>,
}

impl View for TokenMap {
    type V = Map<Seq<char>, Seq<char>>;

    closed spec fn view(&self) -> Map<Seq<char>, Seq<char>> {
        assoc_map_of(self.entries@)
    }
}

impl TokenMap {
    pub(crate) fn new() -> (r: TokenMap)
        ensures
            r@ == Map::<Seq<char>, Seq<char>>::empty(),
    {
        TokenMap { entries: Vec::new() }
    }

    pub(crate) fn insert(&mut self, k: String, v: String)
        ensures
            final(self)@ == old(self)@.insert(k@, v@),
    {
        let ghost before = self.entries@;
        self.entries.push((k, v));
        proof {
            assert(self.entries@.drop_last() =~= before);
        }
    }

    pub(crate) fn get<'a>(&'a self, k: &str) -> (r: Option<&'a String>)
        ensures
            match r {
                Some(v) => self@.contains_key(k@) && v@ == self@[k@],
                None => !self@.contains_key(k@),
            },
    {
        let n: usize = self.entries.len();
        let mut i: usize = n;
        while i > 0
            invariant
                i <= n,
                n == self.entries.len(),
                forall|j: int| i <= j < n ==> self.entries@[j].0@ != k@,
            decreases i,
    {
            i = i - 1;
            if str_eq(self.entries[i].0.as_str(), k) {
                proof {
                    lemma_assoc_last_match(self.entries@, k@, i as int);
                }
                return Some(&self.entries[i].1);
            }
        }
        proof {
            lemma_assoc_contains(self.entries@, k@);
        }
        None
    }

}

/// The parser's output artifact: a typed value under each declaration's
/// canonical long name, looked up by that name alone.
#[derive(Debug)]
pub struct ParsedArgs {
    entries: Vec<(String, InnerData)>,
}

impl View for ParsedArgs {
    type V = Map<Seq<char>, ValueModel>;

    closed spec fn view(&self) -> Map<Seq<char>, ValueModel> {
        assoc_map_of(self.entries@)
    }
}

impl ParsedArgs {
    pub fn new() -> (r: ParsedArgs)
        ensures
            r@ == Map::<Seq<char>, ValueModel>::empty(),
    {
        ParsedArgs { entries: Vec::new() }
    }

    pub(crate) fn insert(&mut self, k: String, v: InnerData)
        ensures
            final(self)@ == old(self)@.insert(k@, v@),
    {
        let ghost before = self.entries@;
        self.entries.push((k, v));
        proof {
            assert(self.entries@.drop_last() =~= before);
        }
    }

    /// The resolved value under a canonical long name.
    pub fn get<'a>(&'a self, k: &str) -> (r: Option<&'a InnerData>)
        ensures
            match r {
                Some(v) => self@.contains_key(k@) && v@ == self@[k@],
                None => !self@.contains_key(k@),
            },
    {
        let n: usize = self.entries.len();
        let mut i: usize = n;
        while i > 0
            invariant
                i <= n,
                n == self.entries.len(),
                forall|j: int| i <= j < n ==> self.entries@[j].0@ != k@,
            decreases i,
        {
            i = i - 1;
            if str_eq(self.entries[i].0.as_str(), k) {
                proof {
                    lemma_assoc_last_match(self.entries@, k@, i as int);
                }
                return Some(&self.entries[i].1);
            }
        }
        proof {
            lemma_assoc_contains(self.entries@, k@);
        }
        None
    }

    /// Whether some declaration resolved under this canonical long name.
    pub fn contains(&self, k: &str) -> (r: bool)
        ensures
            r == self@.contains_key(k@),
    {
        match self.get(k) {
            Some(_) => true,
            None => false,
        }
    }
}

} // verus!
