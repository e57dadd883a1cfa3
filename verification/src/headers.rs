//! An insertion-ordered header mapping with unique keys. Inserting under an
//! existing key replaces its value in place, so the wire order of serialized
//! headers is stable and deterministic.

use vstd::prelude::*;
use crate::text::str_eq;

verus! {

/// The mapping after an insert: the value is replaced in place when the key
/// is present, and the pair is appended otherwise.
pub open spec fn insert_pair(
    hs: Seq<(Seq<char>, Seq<char>)>,
    k: Seq<char>,
    v: Seq<char>,
) -> Seq<(Seq<char>, Seq<char>)>
    decreases hs.len(),
{
    if hs.len() == 0 {
        seq![(k, v)]
    } else if hs[0].0 == k {
        seq![(k, v)] + hs.drop_first()
    } else {
        seq![hs[0]] + insert_pair(hs.drop_first(), k, v)
    }
}

/// The value stored under a key, if any.
pub open spec fn lookup(hs: Seq<(Seq<char>, Seq<char>)>, k: Seq<char>) -> Option<Seq<char>>
    decreases hs.len(),
{
    if hs.len() == 0 {
        None
    } else if hs[0].0 == k {
        Some(hs[0].1)
    } else {
        lookup(hs.drop_first(), k)
    }
}

/// Whether the mapping holds a value under the key.
pub open spec fn has_key(hs: Seq<(Seq<char>, Seq<char>)>, k: Seq<char>) -> bool {
    lookup(hs, k) is Some
}

/// Every key occurs at most once.
pub open spec fn keys_unique(hs: Seq<(Seq<char>, Seq<char>)>) -> bool {
    forall|i: int, j: int| 0 <= i < j < hs.len() ==> (#[trigger] hs[i]).0 != (#[trigger] hs[j]).0
}

/// An insert keeps keys unique, stores the given value under the given key,
/// and leaves every other key's value unchanged.
pub proof fn lemma_insert_pair(hs: Seq<(Seq<char>, Seq<char>)>, k: Seq<char>, v: Seq<char>)
    requires
        keys_unique(hs),
    ensures
        keys_unique(insert_pair(hs, k, v)),
        lookup(insert_pair(hs, k, v), k) == Some(v),
        forall|k2: Seq<char>| k2 != k ==> #[trigger] lookup(insert_pair(hs, k, v), k2) == lookup(
            hs,
            k2,
        ),
        insert_pair(hs, k, v).len() == if has_key(hs, k) {
            hs.len()
        } else {
            hs.len() + 1
        },
    decreases hs.len(),
{
    let out = insert_pair(hs, k, v);
    if hs.len() == 0 {
        assert forall|k2: Seq<char>| k2 != k implies #[trigger] lookup(out, k2) == lookup(
            hs,
            k2,
        ) by {
            assert(out.drop_first() =~= Seq::<(Seq<char>, Seq<char>)>::empty());
            assert(lookup(out.drop_first(), k2) is None);
            assert(out[0].0 == k);
            assert(lookup(out, k2) is None);
        }
    } else if hs[0].0 == k {
        assert(out.drop_first() =~= hs.drop_first());
        assert forall|i: int, j: int| 0 <= i < j < out.len() implies (#[trigger] out[i]).0 != (
        #[trigger] out[j]).0 by {
            assert(hs[i] == if i == 0 {
                hs[0]
            } else {
                hs.drop_first()[i - 1]
            });
        }
        assert forall|k2: Seq<char>| k2 != k implies #[trigger] lookup(out, k2) == lookup(
            hs,
            k2,
        ) by {
            assert(out[0].0 == k);
            assert(lookup(out, k2) == lookup(out.drop_first(), k2));
            assert(lookup(hs, k2) == lookup(hs.drop_first(), k2));
        }
    } else {
        let sub = hs.drop_first();
        assert(keys_unique(sub)) by {
            assert(forall|i: int, j: int|
                0 <= i < j < sub.len() ==> (#[trigger] sub[i]).0 == hs[i + 1].0 && (
                #[trigger] sub[j]).0 == hs[j + 1].0);
        }
        lemma_insert_pair(sub, k, v);
        let tail = insert_pair(sub, k, v);
        assert(out == seq![hs[0]] + tail);
        assert(out.drop_first() =~= tail);
        assert(hs[0].0 != k);
        // the head key is absent from the inserted tail
        assert(lookup(tail, hs[0].0) == lookup(sub, hs[0].0));
        assert forall|i: int, j: int| 0 <= i < j < out.len() implies (#[trigger] out[i]).0 != (
        #[trigger] out[j]).0 by {
            if i == 0 {
                assert(out[j] == tail[j - 1]);
                if lookup(tail, hs[0].0) is None {
                    lemma_lookup_none_no_key(tail, hs[0].0, j - 1);
                }
                assert(lookup(sub, hs[0].0) is None) by {
                    if lookup(sub, hs[0].0) is Some {
                        lemma_has_key_index(sub, hs[0].0);
                        let w = choose|w: int|
                            0 <= w < sub.len() && (#[trigger] sub[w]).0 == hs[0].0;
                        assert(hs[w + 1].0 == hs[0].0);
                    }
                }
            } else {
                assert(out[i] == tail[i - 1]);
                assert(out[j] == tail[j - 1]);
            }
        }
        assert forall|k2: Seq<char>| k2 != k implies #[trigger] lookup(out, k2) == lookup(
            hs,
            k2,
        ) by {
            assert(out[0] == hs[0]);
            if out[0].0 != k2 {
                assert(lookup(out, k2) == lookup(tail, k2));
                assert(lookup(hs, k2) == lookup(sub, k2));
            }
        }
        assert(lookup(out, k) == lookup(tail, k));
        assert(lookup(hs, k) == lookup(sub, k));
    }
}

/// When the lookup finds nothing, no entry holds the key.
proof fn lemma_lookup_none_no_key(hs: Seq<(Seq<char>, Seq<char>)>, k: Seq<char>, i: int)
    requires
        lookup(hs, k) is None,
        0 <= i < hs.len(),
    ensures
        hs[i].0 != k,
    decreases hs.len(),
{
    if i > 0 {
        lemma_lookup_none_no_key(hs.drop_first(), k, i - 1);
    }
}

/// When the lookup finds a value, some entry holds the key.
proof fn lemma_has_key_index(hs: Seq<(Seq<char>, Seq<char>)>, k: Seq<char>)
    requires
        lookup(hs, k) is Some,
    ensures
        exists|w: int| 0 <= w < hs.len() && (#[trigger] hs[w]).0 == k,
    decreases hs.len(),
{
    if hs.len() > 0 && hs[0].0 != k {
        lemma_has_key_index(hs.drop_first(), k);
        let w = choose|w: int|
            0 <= w < hs.drop_first().len() && (#[trigger] hs.drop_first()[w]).0 == k;
        assert(hs[w + 1].0 == k);
    }
}

/// An insertion-ordered mapping from header names to header values.
#[derive(Debug, Clone, PartialEq)]
pub struct Headers {
    pairs: Vec<(String, String)>,
}

impl View for Headers {
    type V = Seq<(Seq<char>, Seq<char>)>;

    closed spec fn view(&self) -> Seq<(Seq<char>, Seq<char>)> {
        self.pairs.deep_view()
    }
}

impl Headers {
    /// Every key occurs at most once.
    pub open spec fn wf(&self) -> bool {
        keys_unique(self@)
    }

    /// An empty mapping.
    pub fn new() -> (r: Headers)
        ensures
            r@ == Seq::<(Seq<char>, Seq<char>)>::empty(),
            r.wf(),
    {
        let r = Headers { pairs: Vec::new() };
        proof {
            assert(r@ =~= Seq::<(Seq<char>, Seq<char>)>::empty());
        }
        r
    }

    /// How many headers the mapping holds.
    pub fn len(&self) -> (n: usize)
        ensures
            n == self@.len(),
    {
        self.pairs.len()
    }

    /// The name of the header at a position.
    pub fn key_at(&self, i: usize) -> (k: &String)
        requires
            i < self@.len(),
        ensures
            k@ == self@[i as int].0,
    {
        &self.pairs[i].0
    }

    /// The value of the header at a position.
    pub fn value_at(&self, i: usize) -> (v: &String)
        requires
            i < self@.len(),
        ensures
            v@ == self@[i as int].1,
    {
        &self.pairs[i].1
    }

    /// Stores a value under a name; a later insert under the same name
    /// replaces the earlier value in place.
    pub fn insert(&mut self, k: String, v: String)
        ensures
            final(self)@ == insert_pair(old(self)@, k@, v@),
    {
        let n = self.pairs.len();
        let ghost orig = self@;
        proof {
            assert(orig.skip(0) =~= orig);
            assert(orig.take(0) + insert_pair(orig, k@, v@) =~= insert_pair(orig, k@, v@));
        }
        let mut i: usize = 0;
        while i < n
            invariant
                0 <= i <= n,
                n == self@.len(),
                orig == old(self)@,
                self@ == orig,
                self.pairs.deep_view() == orig,
                insert_pair(orig, k@, v@) == orig.take(i as int) + insert_pair(
                    orig.skip(i as int),
                    k@,
                    v@,
                ),
                forall|j: int| 0 <= j < i ==> (#[trigger] orig[j]).0 != k@,
            decreases n - i,
        {
            proof {
                let suf = orig.skip(i as int);
                assert(suf[0] == orig[i as int]);
            }
            if str_eq(self.pairs[i].0.as_str(), k.as_str()) {
                proof {
                    let suf = orig.skip(i as int);
                    assert(insert_pair(suf, k@, v@) == seq![(k@, v@)] + suf.drop_first());
                    assert(suf.drop_first() =~= orig.skip(i as int + 1));
                }
                let ghost op = self.pairs@;
                self.pairs.remove(i);
                self.pairs.insert(i, (k, v));
                proof {
                    let new_dv = self.pairs.deep_view();
                    let want = orig.take(i as int) + (seq![(k@, v@)] + orig.skip(i as int + 1));
                    assert(self.pairs@ == op.remove(i as int).insert(i as int, (k, v)));
                    assert(new_dv.len() == want.len());
                    assert forall|j: int| 0 <= j < new_dv.len() implies new_dv[j] == want[j] by {
                        if j < i {
                            assert(self.pairs@[j] == op[j]);
                            assert(want[j] == orig[j]);
                        } else if j == i {
                            assert(self.pairs@[j] == (k, v));
                        } else {
                            assert(self.pairs@[j] == op.remove(i as int)[j - 1]);
                            assert(op.remove(i as int)[j - 1] == op[j]);
                            assert(want[j] == orig.skip(i as int + 1)[j - i - 1]);
                            assert(want[j] == orig[j]);
                        }
                    }
                    assert(new_dv =~= want);
                }
                return ;
            }
            proof {
                let suf = orig.skip(i as int);
                assert(suf.drop_first() =~= orig.skip(i as int + 1));
                assert(orig.take(i as int).push(orig[i as int]) =~= orig.take(i as int + 1));
                assert(orig.take(i as int) + (seq![suf[0]] + insert_pair(
                    suf.drop_first(),
                    k@,
                    v@,
                )) =~= orig.take(i as int + 1) + insert_pair(orig.skip(i as int + 1), k@, v@));
            }
            i += 1;
        }
        proof {
            let suf = orig.skip(i as int);
            assert(suf.len() == 0);
            assert(insert_pair(suf, k@, v@) == seq![(k@, v@)]);
        }
        self.pairs.push((k, v));
        proof {
            assert(self.pairs.deep_view() =~= orig.take(n as int) + seq![(k@, v@)]);
            assert(orig.take(n as int) =~= orig);
        }
    }

    /// The value stored under a name, if any.
    pub fn get(&self, k: &str) -> (r: Option<&String>)
        ensures
            r is Some <==> has_key(self@, k@),
            r matches Some(v) ==> lookup(self@, k@) == Some(v@),
    {
        let n = self.pairs.len();
        proof {
            assert(self@.skip(0) =~= self@);
        }
        let mut i: usize = 0;
        while i < n
            invariant
                0 <= i <= n,
                n == self@.len(),
                lookup(self@, k@) == lookup(self@.skip(i as int), k@),
            decreases n - i,
        {
            proof {
                let suf = self@.skip(i as int);
                assert(suf[0] == self@[i as int]);
            }
            if str_eq(self.pairs[i].0.as_str(), k) {
                return Some(&self.pairs[i].1);
            }
            proof {
                let suf = self@.skip(i as int);
                assert(suf.drop_first() =~= self@.skip(i as int + 1));
            }
            i += 1;
        }
        proof {
            assert(self@.skip(i as int).len() == 0);
        }
        None
    }
}

} // verus!
