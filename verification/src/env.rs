//! The environment: the mapping from bound names to their (unevaluated)
//! defining expressions, threaded through evaluation.
//!
//! It is kept as an association list with pairwise-distinct keys, so a
//! lookup by linear scan agrees with the abstract `Map` view.

use vstd::prelude::*;

use crate::ast::Elem;
use crate::ast::ElemModel;

verus! {

/// A mutable store of bindings, owned by the driver for the lifetime of a
/// session. Procedure application snapshots it, so bindings made inside a
/// call never leak to the caller's store.
pub struct Env {
    pairs: Vec<(String, Elem)>,
}

/// The abstract contents of an association list: later pairs win.
spec fn assoc_view(s: Seq<(String, Elem)>) -> Map<Seq<char>, ElemModel>
    decreases s.len(),
{
    if s.len() == 0 {
        Map::empty()
    } else {
        assoc_view(s.drop_last()).insert(s.last().0@, s.last().1.view())
    }
}

/// If no pair carries `key`, the view has no entry for it.
proof fn lemma_assoc_absent(s: Seq<(String, Elem)>, key: Seq<char>)
    requires
        forall|i: int| 0 <= i < s.len() ==> (#[trigger] s[i].0)@ != key,
    ensures
        !assoc_view(s).dom().contains(key),
    decreases s.len(),
{
    if s.len() > 0 {
        lemma_assoc_absent(s.drop_last(), key);
    }
}

/// If the pair at `i` is the last one carrying its key, the view maps that
/// key to its value.
proof fn lemma_assoc_found(s: Seq<(String, Elem)>, i: int)
    requires
        0 <= i < s.len(),
        forall|j: int| i < j < s.len() ==> (#[trigger] s[j].0)@ != s[i].0@,
    ensures
        assoc_view(s).dom().contains(s[i].0@),
        assoc_view(s)[s[i].0@] == s[i].1.view(),
    decreases s.len(),
{
    if i < s.len() - 1 {
        assert(s.drop_last()[i] == s[i]);
        lemma_assoc_found(s.drop_last(), i);
    }
}

impl Env {
    /// The keys are pairwise distinct.
    pub closed spec fn wf(self) -> bool {
        forall|i: int, j: int|
            0 <= i < j < self.pairs@.len() ==> (#[trigger] self.pairs@[i].0)@ != (
            #[trigger] self.pairs@[j].0)@
    }

    pub closed spec fn view(self) -> Map<Seq<char>, ElemModel> {
        assoc_view(self.pairs@)
    }

    /// A store with no bindings.
    pub fn new() -> (r: Env)
        ensures
            r.wf(),
            r@ == Map::<Seq<char>, ElemModel>::empty(),
    {
        Env { pairs: Vec::new() }
    }

    /// Whether `name` is bound.
    pub fn contains(&self, name: &String) -> (r: bool)
        ensures
            r == self@.dom().contains(name@),
    {
        let mut k: usize = 0;
        while k < self.pairs.len()
            invariant
                k <= self.pairs@.len(),
                forall|i: int| 0 <= i < k ==> (#[trigger] self.pairs@[i].0)@ != name@,
            decreases self.pairs@.len() - k,
        {
            if self.pairs[k].0 == *name {
                proof {
                    lemma_assoc_last_wins(self.pairs@, k as int, name@);
                }
                return true;
            }
            k = k + 1;
        }
        proof {
            lemma_assoc_absent(self.pairs@, name@);
        }
        false
    }

    /// The value bound to `name`, as a structurally equal copy, if any.
    pub fn get(&self, name: &String) -> (r: Option<Elem>)
        requires
            self.wf(),
        ensures
            match r {
                Some(v) => self@.dom().contains(name@) && v.view() == self@[name@],
                None => !self@.dom().contains(name@),
            },
    {
        let mut k: usize = 0;
        while k < self.pairs.len()
            invariant
                self.wf(),
                k <= self.pairs@.len(),
                forall|i: int| 0 <= i < k ==> (#[trigger] self.pairs@[i].0)@ != name@,
            decreases self.pairs@.len() - k,
        {
            if self.pairs[k].0 == *name {
                proof {
                    lemma_assoc_found(self.pairs@, k as int);
                }
                return Some(self.pairs[k].1.duplicate());
            }
            k = k + 1;
        }
        proof {
            lemma_assoc_absent(self.pairs@, name@);
        }
        None
    }

    /// Binds `name` to `value`, overwriting any earlier binding.
    pub fn insert(&mut self, name: String, value: Elem)
        requires
            old(self).wf(),
        ensures
            final(self).wf(),
            final(self)@ == old(self)@.insert(name@, value.view()),
    {
        let mut k: usize = 0;
        while k < self.pairs.len()
            invariant
                *self == *old(self),
                self.wf(),
                k <= self.pairs@.len(),
                forall|i: int| 0 <= i < k ==> (#[trigger] self.pairs@[i].0)@ != name@,
            decreases self.pairs@.len() - k,
        {
            if self.pairs[k].0 == name {
                let ghost s = self.pairs@;
                proof {
                    assert forall|j: int| k < j < s.len() implies (#[trigger] s[j].0)@ != s[k as int].0@ by {
                        assert(s[k as int].0@ != s[j].0@);
                    }
                    lemma_assoc_update(s, k as int, (name, value));
                }
                self.pairs[k] = (name, value);
                proof {
                    assert(self.pairs@ =~= s.update(k as int, (name, value)));
                    assert forall|i: int, j: int|
                        0 <= i < j < self.pairs@.len() implies (#[trigger] self.pairs@[i].0)@ != (
                    #[trigger] self.pairs@[j].0)@ by {
                        assert(s[i].0@ != s[j].0@);
                    }
                }
                return ;
            }
            k = k + 1;
        }
        proof {
            let s = self.pairs@.push((name, value));
            assert(s.drop_last() =~= self.pairs@);
            lemma_assoc_absent(self.pairs@, name@);
        }
        self.pairs.push((name, value));
    }

    /// A snapshot with the same bindings.
    pub fn duplicate(&self) -> (r: Env)
        requires
            self.wf(),
        ensures
            r.wf(),
            r@ == self@,
    {
        let mut pairs: Vec<(String, Elem)> = Vec::new();
        let mut k: usize = 0;
        while k < self.pairs.len()
            invariant
                k <= self.pairs@.len(),
                pairs@.len() == k,
                forall|i: int|
                    0 <= i < k ==> (#[trigger] pairs@[i]).0@ == self.pairs@[i].0@ && pairs@[i].1.view()
                        == self.pairs@[i].1.view(),
            decreases self.pairs@.len() - k,
        {
            pairs.push((self.pairs[k].0.clone(), self.pairs[k].1.duplicate()));
            k = k + 1;
        }
        let r = Env { pairs };
        proof {
            lemma_assoc_congruent(r.pairs@, self.pairs@);
        }
        r
    }
}

/// A scan hit at `k` gives membership even without distinct keys.
proof fn lemma_assoc_last_wins(s: Seq<(String, Elem)>, k: int, key: Seq<char>)
    requires
        0 <= k < s.len(),
        s[k].0@ == key,
    ensures
        assoc_view(s).dom().contains(key),
    decreases s.len(),
{
    if k < s.len() - 1 {
        lemma_assoc_last_wins(s.drop_last(), k, key);
    }
}

/// Replacing the pair at `k` by one with the same key updates the view as a
/// map insertion, provided no later pair reuses that key.
proof fn lemma_assoc_update(s: Seq<(String, Elem)>, k: int, p: (String, Elem))
    requires
        0 <= k < s.len(),
        s[k].0@ == p.0@,
        forall|j: int| k < j < s.len() ==> (#[trigger] s[j].0)@ != s[k].0@,
    ensures
        assoc_view(s.update(k, p)) == assoc_view(s).insert(p.0@, p.1.view()),
    decreases s.len(),
{
    let t = s.update(k, p);
    if k == s.len() - 1 {
        assert(t.drop_last() =~= s.drop_last());
        assert(assoc_view(t) =~= assoc_view(s).insert(p.0@, p.1.view()));
    } else {
        assert(t.drop_last() =~= s.drop_last().update(k, p));
        lemma_assoc_update(s.drop_last(), k, p);
        assert(assoc_view(t) =~= assoc_view(s).insert(p.0@, p.1.view()));
    }
}

/// Lists whose pairs agree key-for-key and model-for-model have one view.
proof fn lemma_assoc_congruent(a: Seq<(String, Elem)>, b: Seq<(String, Elem)>)
    requires
        a.len() == b.len(),
        forall|i: int|
            0 <= i < a.len() ==> (#[trigger] a[i]).0@ == b[i].0@ && a[i].1.view() == b[i].1.view(),
    ensures
        assoc_view(a) == assoc_view(b),
    decreases a.len(),
{
    if a.len() > 0 {
        assert(forall|i: int|
            0 <= i < a.len() - 1 ==> (#[trigger] a.drop_last()[i]) == a[i] && b.drop_last()[i]
                == b[i]);
        lemma_assoc_congruent(a.drop_last(), b.drop_last());
        assert(assoc_view(a) =~= assoc_view(b));
    }
}

} // verus!
