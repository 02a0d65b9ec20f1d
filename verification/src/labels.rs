//! Label sets: name/value pairs with map semantics.
//!
//! The pairs are kept in insertion order so a caller can walk them, but the
//! meaning of a label set is the map they denote, where a later pair of the
//! same name wins.

use vstd::prelude::*;

use crate::grammar::labels_of_frags;

verus! {

/// The view of a list of owned pairs as a list of character sequences.
pub open spec fn pairs_view(ps: Seq<(String, String)>) -> Seq<(Seq<char>, Seq<char>)> {
    ps.map_values(|p: (String, String)| (p.0@, p.1@))
}

/// A set of labels attached to a sample.  Its view is the map from label
/// name to label value.
#[derive(Debug)]
pub struct LabelSet {
    pairs: Vec<(String, String)>,
}

impl View for LabelSet {
    type V = Map<Seq<char>, Seq<char>>;

    closed spec fn view(&self) -> Map<Seq<char>, Seq<char>> {
        labels_of_frags(pairs_view(self.pairs@))
    }
}

/// The denoted map contains a key exactly when some pair carries it.
pub proof fn lemma_labels_of_frags_contains(fs: Seq<(Seq<char>, Seq<char>)>, k: Seq<char>)
    ensures
        labels_of_frags(fs).contains_key(k) <==> exists|i: int|
            0 <= i < fs.len() && (#[trigger] fs[i]).0 == k,
    decreases fs.len(),
{
    if fs.len() > 0 {
        assert(forall|i: int|
            0 <= i < fs.len() - 1 ==> #[trigger] fs.drop_last()[i] == fs[i]);
        lemma_labels_of_frags_contains(fs.drop_last(), k);
        if labels_of_frags(fs).contains_key(k) && fs.last().0 != k {
            let i = choose|i: int|
                0 <= i < fs.drop_last().len() && (#[trigger] fs.drop_last()[i]).0 == k;
            assert(fs[i].0 == k);
        }
        if exists|i: int| 0 <= i < fs.len() && (#[trigger] fs[i]).0 == k {
            let i = choose|i: int| 0 <= i < fs.len() && (#[trigger] fs[i]).0 == k;
            if i < fs.len() - 1 {
                assert(fs.drop_last()[i].0 == k);
            }
        }
    }
}

/// A key that no pair carries is not in the denoted map.
pub proof fn lemma_labels_of_frags_absent(fs: Seq<(Seq<char>, Seq<char>)>, k: Seq<char>)
    requires
        forall|i: int| 0 <= i < fs.len() ==> (#[trigger] fs[i]).0 != k,
    ensures
        !labels_of_frags(fs).contains_key(k),
    decreases fs.len(),
{
    if fs.len() > 0 {
        assert(forall|i: int|
            0 <= i < fs.len() - 1 ==> #[trigger] fs.drop_last()[i] == fs[i]);
        lemma_labels_of_frags_absent(fs.drop_last(), k);
    }
}

/// The last pair of a key gives that key's value in the denoted map.
pub proof fn lemma_labels_of_frags_at(fs: Seq<(Seq<char>, Seq<char>)>, k: Seq<char>, j: int)
    requires
        0 <= j < fs.len(),
        fs[j].0 == k,
        forall|l: int| j < l < fs.len() ==> (#[trigger] fs[l]).0 != k,
    ensures
        labels_of_frags(fs).contains_key(k),
        labels_of_frags(fs)[k] == fs[j].1,
    decreases fs.len(),
{
    if j == fs.len() - 1 {
        assert(labels_of_frags(fs) == labels_of_frags(fs.drop_last()).insert(
            fs.last().0,
            fs.last().1,
        ));
    } else {
        assert(forall|i: int|
            0 <= i < fs.len() - 1 ==> #[trigger] fs.drop_last()[i] == fs[i]);
        lemma_labels_of_frags_at(fs.drop_last(), k, j);
        assert(fs.last().0 != k);
    }
}

impl LabelSet {
    /// An empty label set.
    pub fn new() -> (r: LabelSet)
        ensures
            r@ == Map::<Seq<char>, Seq<char>>::empty(),
    {
        let r = LabelSet { pairs: Vec::new() };
        proof {
            assert(pairs_view(r.pairs@) =~= Seq::<(Seq<char>, Seq<char>)>::empty());
        }
        r
    }

    /// A label set made of the given pairs, later pairs winning.
    pub fn from_pairs(pairs: Vec<(String, String)>) -> (r: LabelSet)
        ensures
            r@ == labels_of_frags(pairs_view(pairs@)),
    {
        LabelSet { pairs }
    }

    /// Add one label; an existing label of the same name is overwritten.
    pub fn insert(&mut self, name: String, value: String)
        ensures
            final(self)@ == old(self)@.insert(name@, value@),
    {
        let ghost before = pairs_view(self.pairs@);
        let ghost p = (name@, value@);
        self.pairs.push((name, value));
        proof {
            assert(pairs_view(self.pairs@) =~= before.push(p));
            assert(before.push(p).drop_last() =~= before);
        }
    }

    /// Look a label up by name.
    pub fn get<'a>(&'a self, name: &str) -> (r: Option<&'a String>)
        ensures
            match r {
                Some(v) => self@.contains_key(name@) && v@ == self@[name@],
                None => !self@.contains_key(name@),
            },
    {
        let n = self.pairs.len();
        let mut i = n;
        while i > 0
            invariant
                i <= n,
                n == self.pairs.len(),
                forall|l: int| i <= l < n ==> pairs_view(self.pairs@)[l].0 != name@,
            decreases i,
        {
            i = i - 1;
            if str_eq(self.pairs[i].0.as_str(), name) {
                proof {
                    let fs = pairs_view(self.pairs@);
                    assert(fs[i as int].0 == name@);
                    lemma_labels_of_frags_at(fs, name@, i as int);
                    assert(self.pairs@[i as int].1@ == fs[i as int].1);
                }
                return Some(&self.pairs[i].1);
            }
            proof {
                assert(pairs_view(self.pairs@)[i as int].0 != name@);
            }
        }
        proof {
            lemma_labels_of_frags_absent(pairs_view(self.pairs@), name@);
        }
        None
    }

    /// The pairs of the set, in insertion order.
    pub fn entries(&self) -> (r: &Vec<(String, String)>)
        ensures
            labels_of_frags(pairs_view(r@)) == self@,
    {
        &self.pairs
    }

    /// Does every label of `self` appear in `other` with the same value?
    #[verifier::loop_isolation(false)]
    fn is_submap_of(&self, other: &LabelSet) -> (r: bool)
        ensures
            r == forall|k: Seq<char>| #[trigger]
                self@.contains_key(k) ==> other@.contains_key(k) && other@[k] == self@[k],
    {
        let n = self.pairs.len();
        let mut i: usize = 0;
        while i < n
            invariant
                i <= n,
                n == self.pairs.len(),
                forall|j: int|
                    0 <= j < i ==> (other@.contains_key(
                        (#[trigger] pairs_view(self.pairs@)[j]).0,
                    ) && other@[pairs_view(self.pairs@)[j].0] == self@[pairs_view(
                        self.pairs@,
                    )[j].0]),
            decreases n - i,
        {
            let k = &self.pairs[i].0;
            proof {
                lemma_labels_of_frags_contains(pairs_view(self.pairs@), k@);
                assert(pairs_view(self.pairs@)[i as int].0 == k@);
            }
            let mine = match self.get(k.as_str()) {
                Some(v) => v,
                None => {
                    proof {
                        assert(false);
                    }
                    return false;
                },
            };
            match other.get(k.as_str()) {
                None => {
                    return false;
                },
                Some(w) => {
                    if !str_eq(mine.as_str(), w.as_str()) {
                        return false;
                    }
                },
            }
            i = i + 1;
        }
        proof {
            assert forall|k: Seq<char>| #[trigger]
                self@.contains_key(k) implies other@.contains_key(k) && other@[k] == self@[k] by {
                lemma_labels_of_frags_contains(pairs_view(self.pairs@), k);
                let j = choose|j: int|
                    0 <= j < pairs_view(self.pairs@).len() && (#[trigger] pairs_view(
                        self.pairs@,
                    )[j]).0 == k;
                assert(other@.contains_key(pairs_view(self.pairs@)[j].0));
            }
        }
        true
    }
}

impl PartialEq for LabelSet {
    /// Two label sets are equal when they denote the same map, whatever
    /// the order of their pairs.
    fn eq(&self, other: &LabelSet) -> (r: bool) {
        let fwd = self.is_submap_of(other);
        let bwd = other.is_submap_of(self);
        let r = fwd && bwd;
        proof {
            if r {
                assert(self@ =~= other@);
            } else if self@ == other@ {
                assert(false);
            }
        }
        r
    }
}

impl vstd::std_specs::cmp::PartialEqSpecImpl for LabelSet {
    open spec fn obeys_eq_spec() -> bool {
        true
    }

    open spec fn eq_spec(&self, other: &LabelSet) -> bool {
        self@ == other@
    }
}

/// Compare two string slices character by character.
pub(crate) fn str_eq(a: &str, b: &str) -> (r: bool)
    ensures
        r == (a@ == b@),
{
    let na = a.unicode_len();
    let nb = b.unicode_len();
    if na != nb {
        return false;
    }
    let mut i: usize = 0;
    while i < na
        invariant
            i <= na,
            na == a@.len(),
            na == b@.len(),
            forall|j: int| 0 <= j < i ==> a@[j] == b@[j],
        decreases na - i,
    {
        if a.get_char(i) != b.get_char(i) {
            return false;
        }
        i = i + 1;
    }
    proof {
        assert(a@ =~= b@);
    }
    true
}

} // verus!
