//! The set of path parameters captured while matching one route.

use vstd::prelude::*;

verus! {

/// The map described by an association list, later entries overriding
/// earlier ones.
pub open spec fn assoc_map(s: Seq<(String, String)>) -> Map<Seq<char>, Seq<char>>
    decreases s.len(),
{
    if s.len() == 0 {
        Map::empty()
    } else {
        assoc_map(s.drop_last()).insert(s.last().0@, s.last().1@)
    }
}

/// The names of an association list are pairwise distinct.
pub open spec fn distinct_names(s: Seq<(String, String)>) -> bool {
    forall|i: int, j: int| 0 <= i < j < s.len() ==> s[i].0@ != s[j].0@
}

/// A mapping from parameter name to the string value captured for it,
/// populated fresh per request from the matched pattern's captures.
///
/// Parameter names are unique within one route, so the pairs are held in
/// a vector whose names are pairwise distinct, and the abstract view is a
/// finite map from name to value.
pub struct Params {
    items: Vec<(String, String)>,
}

impl View for Params {
    type V = Map<Seq<char>, Seq<char>>;

    closed spec fn view(&self) -> Map<Seq<char>, Seq<char>> {
        assoc_map(self.items@)
    }
}

/// A name occurs somewhere in an association list.
pub open spec fn has_name(s: Seq<(String, String)>, k: Seq<char>) -> bool {
    exists|i: int| 0 <= i < s.len() && s[i].0@ == k
}

proof fn lemma_assoc_dom(s: Seq<(String, String)>, k: Seq<char>)
    ensures
        assoc_map(s).dom().contains(k) <==> has_name(s, k),
    decreases s.len(),
{
    if s.len() == 0 {
    } else {
        lemma_assoc_dom(s.drop_last(), k);
        if s.last().0@ == k {
            assert(s[s.len() - 1].0@ == k);
        } else {
            if has_name(s, k) {
                let i = choose|i: int| 0 <= i < s.len() && s[i].0@ == k;
                assert(i < s.len() - 1);
                assert(s.drop_last()[i].0@ == k);
            }
            if has_name(s.drop_last(), k) {
                let i = choose|i: int| 0 <= i < s.drop_last().len() && s.drop_last()[i].0@ == k;
                assert(s[i].0@ == k);
            }
        }
    }
}

proof fn lemma_assoc_get(s: Seq<(String, String)>, i: int)
    requires
        distinct_names(s),
        0 <= i < s.len(),
    ensures
        assoc_map(s).dom().contains(s[i].0@),
        assoc_map(s)[s[i].0@] == s[i].1@,
    decreases s.len(),
{
    if i == s.len() - 1 {
    } else {
        assert(s.drop_last()[i] == s[i]);
        lemma_assoc_get(s.drop_last(), i);
        assert(s.last().0@ != s[i].0@);
    }
}

proof fn lemma_assoc_len(s: Seq<(String, String)>)
    requires
        distinct_names(s),
    ensures
        assoc_map(s).dom().finite(),
        assoc_map(s).dom().len() == s.len(),
    decreases s.len(),
{
    if s.len() == 0 {
        assert(assoc_map(s).dom() =~= Set::<Seq<char>>::empty());
    } else {
        lemma_assoc_len(s.drop_last());
        lemma_assoc_dom(s.drop_last(), s.last().0@);
        assert(!has_name(s.drop_last(), s.last().0@));
        assert(assoc_map(s).dom() =~= assoc_map(s.drop_last()).dom().insert(s.last().0@));
    }
}

impl Params {
    /// The names in the vector are pairwise distinct.
    pub closed spec fn wf(&self) -> bool {
        distinct_names(self.items@)
    }

    /// An empty parameter set.
    pub fn new() -> (r: Params)
        ensures
            r.wf(),
            r@ == Map::<Seq<char>, Seq<char>>::empty(),
    {
        Params { items: Vec::new() }
    }

    /// How many parameters were captured.
    pub fn len(&self) -> (n: usize)
        requires
            self.wf(),
        ensures
            n == self@.dom().len(),
    {
        proof {
            lemma_assoc_len(self.items@);
        }
        self.items.len()
    }

    /// Records the value captured for a name that is not yet present.
    pub fn insert(&mut self, name: String, value: String)
        requires
            old(self).wf(),
            !old(self)@.dom().contains(name@),
        ensures
            final(self).wf(),
            final(self)@ == old(self)@.insert(name@, value@),
    {
        proof {
            lemma_assoc_dom(self.items@, name@);
            assert(forall|i: int|
                0 <= i < self.items@.len() ==> self.items@[i].0@ != name@);
        }
        let ghost before = self.items@;
        self.items.push((name, value));
        proof {
            assert(self.items@.drop_last() =~= before);
        }
    }

    /// Looks the captured value up by parameter name.
    ///
    /// A handler asking for a name that the matched route never captured
    /// gets `None` back: the mismatch is reported, not a fault.
    pub fn get(&self, name: &str) -> (r: Option<&String>)
        requires
            self.wf(),
        ensures
            match r {
                Some(v) => self@.dom().contains(name@) && v@ == self@[name@],
                None => !self@.dom().contains(name@),
            },
    {
        let n = self.items.len();
        for i in 0..n
            invariant
                n == self.items@.len(),
                self.wf(),
                forall|j: int| 0 <= j < i ==> self.items@[j].0@ != name@,
        {
            if crate::text::str_eq(self.items[i].0.as_str(), name) {
                proof {
                    lemma_assoc_get(self.items@, i as int);
                }
                return Some(&self.items[i].1);
            }
        }
        proof {
            lemma_assoc_dom(self.items@, name@);
        }
        None
    }
}

} // verus!
