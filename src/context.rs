use vstd::prelude::*;

use crate::error::{ContextError, ContextErrorV};
use crate::key::ContextKey;

verus! {

/// `k` is a suffix of `full`, segment by segment: the column `id` names the
/// entry `person.id`.
pub open spec fn is_key_suffix(k: Seq<Seq<char>>, full: Seq<Seq<char>>) -> bool {
    k.len() <= full.len() && full.subrange(full.len() - k.len(), full.len() as int) == k
}

/// The position of the first entry whose key is `k`, if any.
pub open spec fn first_index<W>(c: Seq<(Seq<Seq<char>>, W)>, k: Seq<Seq<char>>) -> Option<int>
    decreases c.len(),
{
    if c.len() == 0 {
        None
    } else {
        match first_index(c.drop_last(), k) {
            Some(i) => Some(i),
            None => if c.last().0 == k {
                Some(c.len() - 1)
            } else {
                None
            },
        }
    }
}

/// The value that an exact lookup of `k` finds.
pub open spec fn spec_get<W>(c: Seq<(Seq<Seq<char>>, W)>, k: Seq<Seq<char>>) -> Result<W, ContextErrorV> {
    match first_index(c, k) {
        Some(i) => Ok(c[i].1),
        None => Err(ContextErrorV::NotFound(k)),
    }
}

/// The values of the entries whose key ends with `k`, in order.
pub open spec fn suffix_hits<W>(c: Seq<(Seq<Seq<char>>, W)>, k: Seq<Seq<char>>) -> Seq<W>
    decreases c.len(),
{
    if c.len() == 0 {
        Seq::empty()
    } else if is_key_suffix(k, c.last().0) {
        suffix_hits(c.drop_last(), k).push(c.last().1)
    } else {
        suffix_hits(c.drop_last(), k)
    }
}

/// A column lookup: the one entry whose key ends with `k`; none is `NotFound`,
/// several are `Ambiguous`.
pub open spec fn spec_get_column<W>(c: Seq<(Seq<Seq<char>>, W)>, k: Seq<Seq<char>>) -> Result<
    W,
    ContextErrorV,
> {
    let hits = suffix_hits(c, k);
    if hits.len() == 0 {
        Err(ContextErrorV::NotFound(k))
    } else if hits.len() > 1 {
        Err(ContextErrorV::Ambiguous(k))
    } else {
        Ok(hits[0])
    }
}

/// The entries after `k` is bound to `v`: an existing entry keeps its place
/// and takes the new value, a new key goes last.
pub open spec fn spec_insert<W>(c: Seq<(Seq<Seq<char>>, W)>, k: Seq<Seq<char>>, v: W) -> Seq<
    (Seq<Seq<char>>, W),
> {
    match first_index(c, k) {
        Some(i) => c.update(i, (k, v)),
        None => c.push((k, v)),
    }
}

/// The entries after each entry of `d` is inserted in turn.
pub open spec fn spec_extend<W>(c: Seq<(Seq<Seq<char>>, W)>, d: Seq<(Seq<Seq<char>>, W)>) -> Seq<
    (Seq<Seq<char>>, W),
>
    decreases d.len(),
{
    if d.len() == 0 {
        c
    } else {
        spec_insert(spec_extend(c, d.drop_last()), d.last().0, d.last().1)
    }
}

pub proof fn lemma_first_index<W>(c: Seq<(Seq<Seq<char>>, W)>, k: Seq<Seq<char>>)
    ensures
        match first_index(c, k) {
            Some(i) => 0 <= i < c.len() && c[i].0 == k && forall|j: int|
                0 <= j < i ==> c[j].0 != k,
            None => forall|j: int| 0 <= j < c.len() ==> c[j].0 != k,
        },
    decreases c.len(),
{
    if c.len() > 0 {
        lemma_first_index(c.drop_last(), k);
        assert forall|j: int| 0 <= j < c.len() - 1 implies c.drop_last()[j] == c[j] by {}
    }
}

pub proof fn lemma_hits_prefix<W>(c: Seq<(Seq<Seq<char>>, W)>, k: Seq<Seq<char>>, i: int)
    requires
        0 <= i <= c.len(),
    ensures
        suffix_hits(c.subrange(0, i), k).len() <= suffix_hits(c, k).len(),
    decreases c.len(),
{
    if i < c.len() {
        assert(c.drop_last().subrange(0, i) =~= c.subrange(0, i));
        lemma_hits_prefix(c.drop_last(), k, i);
    } else {
        assert(c.subrange(0, i) =~= c);
    }
}

/// An insertion-ordered map from keys to values.
#[derive(Debug)]
pub struct Context<V> {
    pub entries: Vec<(ContextKey, V)>,
}

impl<V: View> View for Context<V> {
    type V = Seq<(Seq<Seq<char>>, V::V)>;

    open spec fn view(&self) -> Seq<(Seq<Seq<char>>, V::V)> {
        self.entries@.map_values(|e: (ContextKey, V)| (e.0@, e.1@))
    }
}

impl<V: View> Context<V> {
    pub fn new() -> (r: Self)
        ensures
            r@ == Seq::<(Seq<Seq<char>>, V::V)>::empty(),
    {
        let r = Context { entries: Vec::new() };
        assert(r@ =~= Seq::<(Seq<Seq<char>>, V::V)>::empty());
        r
    }

    pub fn len(&self) -> (r: usize)
        ensures
            r == self@.len(),
    {
        self.entries.len()
    }

    pub fn key_at(&self, i: usize) -> (r: &ContextKey)
        requires
            i < self@.len(),
        ensures
            r@ == self@[i as int].0,
    {
        &self.entries[i].0
    }

    pub fn value_at(&self, i: usize) -> (r: &V)
        requires
            i < self@.len(),
        ensures
            r@ == self@[i as int].1,
    {
        &self.entries[i].1
    }

    fn find(&self, key: &ContextKey) -> (r: Option<usize>)
        ensures
            match r {
                Some(i) => first_index(self@, key@) == Some(i as int),
                None => first_index(self@, key@) is None,
            },
    {
        let mut i: usize = 0;
        assert(self@.subrange(0, 0) =~= Seq::<(Seq<Seq<char>>, V::V)>::empty());
        while i < self.entries.len()
            invariant
                self@.len() == self.entries@.len(),
                i <= self@.len(),
                first_index(self@.subrange(0, i as int), key@) is None,
            decreases self@.len() - i,
        {
            proof {
                let s = self@.subrange(0, i + 1);
                assert(s.drop_last() =~= self@.subrange(0, i as int));
            }
            if self.entries[i].0.equals(key) {
                proof {
                    assert(self@[i as int].0 == self.entries@[i as int].0@);
                    lemma_first_index(self@, key@);
                    lemma_first_index(self@.subrange(0, i as int), key@);
                    let s = self@.subrange(0, i as int);
                    assert forall|j: int| 0 <= j < i implies self@[j].0 != key@ by {
                        assert(s[j] == self@[j]);
                    }
                }
                return Some(i);
            }
            i += 1;
        }
        proof {
            assert(self@.subrange(0, self@.len() as int) =~= self@);
        }
        None
    }

    /// The value bound to exactly `key`.
    pub fn get(&self, key: &ContextKey) -> (r: Result<&V, ContextError>)
        ensures
            match (r, spec_get(self@, key@)) {
                (Ok(v), Ok(w)) => v@ == w,
                (Err(e), Err(f)) => e@ == f,
                _ => false,
            },
    {
        match self.find(key) {
            Some(i) => {
                proof {
                    lemma_first_index(self@, key@);
                }
                Ok(&self.entries[i].1)
            },
            None => Err(ContextError::NotFound(key.clone())),
        }
    }

    /// The value of the one entry whose key ends with `key`.
    pub fn get_column(&self, key: &ContextKey) -> (r: Result<&V, ContextError>)
        ensures
            match (r, spec_get_column(self@, key@)) {
                (Ok(v), Ok(w)) => v@ == w,
                (Err(e), Err(f)) => e@ == f,
                _ => false,
            },
    {
        let mut found: Option<usize> = None;
        let mut i: usize = 0;
        assert(self@.subrange(0, 0) =~= Seq::<(Seq<Seq<char>>, V::V)>::empty());
        while i < self.entries.len()
            invariant
                self@.len() == self.entries@.len(),
                i <= self@.len(),
                suffix_hits(self@.subrange(0, i as int), key@).len() <= 1,
                match found {
                    None => suffix_hits(self@.subrange(0, i as int), key@).len() == 0,
                    Some(j) => j < i && suffix_hits(self@.subrange(0, i as int), key@) == seq![
                        self@[j as int].1,
                    ],
                },
            decreases self@.len() - i,
        {
            let ek = &self.entries[i].0;
            let n = ek.len();
            let m = key.len();
            let mut hit = m <= n;
            let mut t: usize = 0;
            while hit && t < m
                invariant
                    n == ek@.len(),
                    m == key@.len(),
                    t <= m,
                    hit ==> m <= n,
                    hit ==> forall|u: int| 0 <= u < t ==> ek@[n - m + u] == key@[u],
                    !hit ==> !is_key_suffix(key@, ek@),
                decreases m - t + (if hit { 1int } else { 0int }),
            {
                if !crate::key::same_text(ek.segment(n - m + t).as_str(), key.segment(t).as_str()) {
                    proof {
                        if is_key_suffix(key@, ek@) {
                            assert(ek@.subrange(n - m, n as int)[t as int] == key@[t as int]);
                        }
                    }
                    hit = false;
                } else {
                    t += 1;
                }
            }
            proof {
                let s = self@.subrange(0, i + 1);
                assert(s.drop_last() =~= self@.subrange(0, i as int));
                assert(s.last() == self@[i as int]);
                if hit {
                    assert(ek@.subrange(n - m, n as int) =~= key@);
                }
            }
            if hit {
                match found {
                    Some(_) => {
                        proof {
                            let s = self@.subrange(0, i + 1);
                            assert(suffix_hits(s, key@) =~= suffix_hits(self@.subrange(0, i as int), key@).push(self@[i as int].1));
                            lemma_hits_prefix(self@, key@, i + 1);
                        }
                        return Err(ContextError::Ambiguous(key.clone()));
                    },
                    None => {
                        found = Some(i);
                    },
                }
            }
            proof {
                let s = self@.subrange(0, i + 1);
                assert(suffix_hits(s, key@) =~= if hit {
                    suffix_hits(self@.subrange(0, i as int), key@).push(self@[i as int].1)
                } else {
                    suffix_hits(self@.subrange(0, i as int), key@)
                });
            }
            i += 1;
        }
        proof {
            assert(self@.subrange(0, self@.len() as int) =~= self@);
        }
        match found {
            Some(j) => Ok(&self.entries[j].1),
            None => Err(ContextError::NotFound(key.clone())),
        }
    }

    /// Binds `key` to `value`.
    pub fn insert(&mut self, key: ContextKey, value: V)
        ensures
            final(self)@ == spec_insert(old(self)@, key@, value@),
    {
        match self.find(&key) {
            Some(i) => {
                proof {
                    lemma_first_index(self@, key@);
                }
                let ghost kv = key@;
                let ghost vv = value@;
                self.entries.set(i, (key, value));
                proof {
                    assert(self@ =~= spec_insert(old(self)@, kv, vv));
                }
            },
            None => {
                let ghost kv = key@;
                let ghost vv = value@;
                self.entries.push((key, value));
                proof {
                    assert(self@ =~= spec_insert(old(self)@, kv, vv));
                }
            },
        }
    }

    /// Inserts each entry of `other` in turn.
    pub fn extend(&mut self, other: Context<V>)
        ensures
            final(self)@ == spec_extend(old(self)@, other@),
    {
        let ghost ov = other@;
        let mut entries = other.entries;
        let total = entries.len();
        let mut rest: Vec<(ContextKey, V)> = Vec::new();
        // the entries are taken from the back, so they are reversed first
        while entries.len() > 0
            invariant
                rest@.len() + entries@.len() == ov.len(),
                forall|j: int| 0 <= j < entries@.len() ==> (#[trigger] entries@[j]).0@ == ov[j].0 && entries@[j].1@ == ov[j].1,
                forall|j: int| 0 <= j < rest@.len() ==> (#[trigger] rest@[j]).0@ == ov[ov.len() - 1 - j].0 && rest@[j].1@ == ov[ov.len() - 1 - j].1,
            decreases entries@.len(),
        {
            let e = entries.pop().unwrap();
            rest.push(e);
        }
        let mut done: usize = 0;
        while rest.len() > 0
            invariant
                ov.len() == total,
                rest@.len() + done == ov.len(),
                forall|j: int| 0 <= j < rest@.len() ==> (#[trigger] rest@[j]).0@ == ov[ov.len() - 1 - j].0 && rest@[j].1@ == ov[ov.len() - 1 - j].1,
                self@ == spec_extend(old(self)@, ov.subrange(0, done as int)),
            decreases rest@.len(),
        {
            let e = rest.pop().unwrap();
            proof {
                let s = ov.subrange(0, done + 1);
                assert(s.drop_last() =~= ov.subrange(0, done as int));
            }
            self.insert(e.0, e.1);
            done += 1;
        }
        proof {
            assert(ov.subrange(0, ov.len() as int) =~= ov);
        }
    }
}

} // verus!
