//! A key-value map whose entries expire: each entry carries the
//! moment, in milliseconds, at which it stops being visible. Time is
//! handed in by the caller, so the map itself is a pure value.
use vstd::prelude::*;

verus! {

/// A map from names to values with per-entry expiration.
#[derive(Debug, Clone)]
pub struct TtlMap<V> {
    entries: Vec<(String, V, u64)>,
}

/// The first entry for `k`: its value and expiry moment.
pub open spec fn seq_lookup<V: View>(s: Seq<(String, V, u64)>, k: Seq<char>) -> Option<
    (V::V, u64),
>
    decreases s.len(),
{
    if s.len() == 0 {
        None
    } else if s[0].0@ == k {
        Some((s[0].1@, s[0].2))
    } else {
        seq_lookup(s.drop_first(), k)
    }
}

/// Looking past the first `i` entries, none of which hold `k`, finds
/// the same entry.
pub proof fn lemma_seq_lookup_skip<V: View>(s: Seq<(String, V, u64)>, k: Seq<char>, i: int)
    requires
        0 <= i <= s.len(),
        forall|j: int| 0 <= j < i ==> (#[trigger] s[j]).0@ != k,
    ensures
        seq_lookup(s, k) == seq_lookup(s.skip(i), k),
    decreases i,
{
    if i > 0 {
        assert(s.drop_first() =~= s.skip(1));
        assert(s.skip(1).skip(i - 1) =~= s.skip(i));
        assert forall|j: int| 0 <= j < i - 1 implies (#[trigger] s.skip(1)[j]).0@ != k by {
            assert(s.skip(1)[j] == s[j + 1]);
        }
        lemma_seq_lookup_skip(s.skip(1), k, i - 1);
    } else {
        assert(s.skip(0) =~= s);
    }
}

/// A lookup that reaches entry `i` holding `k`, with no earlier entry
/// holding it, yields that entry.
pub proof fn lemma_seq_lookup_found<V: View>(s: Seq<(String, V, u64)>, k: Seq<char>, i: int)
    requires
        0 <= i < s.len(),
        s[i].0@ == k,
        forall|j: int| 0 <= j < i ==> (#[trigger] s[j]).0@ != k,
    ensures
        seq_lookup(s, k) == Some((s[i].1@, s[i].2)),
{
    lemma_seq_lookup_skip(s, k, i);
    assert(s.skip(i)[0] == s[i]);
}

/// A lookup over entries none of which hold `k` yields nothing.
pub proof fn lemma_seq_lookup_missing<V: View>(s: Seq<(String, V, u64)>, k: Seq<char>)
    requires
        forall|j: int| 0 <= j < s.len() ==> (#[trigger] s[j]).0@ != k,
    ensures
        seq_lookup(s, k) is None,
{
    lemma_seq_lookup_skip(s, k, s.len() as int);
    assert(s.skip(s.len() as int) =~= Seq::<(String, V, u64)>::empty());
}

impl<V: View> TtlMap<V> {
    /// The entry under `k`, expired or not: its value and expiry
    /// moment.
    pub closed spec fn spec_entry(self, k: Seq<char>) -> Option<(V::V, u64)> {
        seq_lookup(self.entries@, k)
    }

    /// The value visible under `k` at time `now`: entries at or past
    /// their expiry moment are gone.
    pub open spec fn spec_get(self, k: Seq<char>, now: u64) -> Option<V::V> {
        match self.spec_entry(k) {
            Some((v, expires_at)) => if now < expires_at {
                Some(v)
            } else {
                None
            },
            None => None,
        }
    }

    /// An empty map.
    pub fn new() -> (r: TtlMap<V>)
        ensures
            forall|k: Seq<char>| r.spec_entry(k) is None,
    {
        let r = TtlMap { entries: Vec::new() };
        proof {
            assert forall|k: Seq<char>| r.spec_entry(k) is None by {
                lemma_seq_lookup_missing::<V>(r.entries@, k);
            }
        }
        r
    }

    /// Binds `key` to `value` until `expires_at`, replacing any
    /// earlier binding; every other key keeps its entry.
    pub fn set(&mut self, key: String, value: V, expires_at: u64)
        ensures
            final(self).spec_entry(key@) == Some((value@, expires_at)),
            forall|k: Seq<char>|
                k != key@ ==> final(self).spec_entry(k) == old(self).spec_entry(k),
    {
        let ghost orig = self.entries@;
        let mut i: usize = 0;
        while i < self.entries.len()
            invariant
                i <= self.entries@.len(),
                self.entries@ == orig,
                orig == old(self).entries@,
                forall|j: int| 0 <= j < i as int ==> (#[trigger] orig[j]).0@ != key@,
            decreases self.entries@.len() - i,
        {
            if self.entries[i].0 == key {
                let ghost before = self.entries@;
                self.entries[i] = (key, value, expires_at);
                proof {
                    let now_entries = self.entries@;
                    assert forall|k: Seq<char>| true implies #[trigger] seq_lookup(
                        now_entries,
                        k,
                    ) == (if k == before[i as int].0@ {
                        Some((value@, expires_at))
                    } else {
                        seq_lookup(orig, k)
                    }) by {
                        if k == before[i as int].0@ {
                            lemma_seq_lookup_found::<V>(now_entries, k, i as int);
                        } else {
                            lemma_lookup_update_other::<V>(orig, now_entries, k, i as int);
                        }
                    }
                }
                return ;
            }
            i = i + 1;
        }
        let ghost before = self.entries@;
        let ghost kv = key@;
        self.entries.push((key, value, expires_at));
        proof {
            let now_entries = self.entries@;
            assert forall|k: Seq<char>| true implies #[trigger] seq_lookup(now_entries, k) == (
            if k == kv {
                Some((value@, expires_at))
            } else {
                seq_lookup(before, k)
            }) by {
                if k == kv {
                    lemma_seq_lookup_found::<V>(now_entries, k, before.len() as int);
                } else {
                    lemma_lookup_push_other::<V>(before, now_entries, k);
                }
            }
        }
    }

    /// The value under `key` at time `now`, if a live entry holds it.
    pub fn get(&self, key: &str, now: u64) -> (r: Option<&V>)
        ensures
            match r {
                Some(v) => self.spec_get(key@, now) == Some(v@),
                None => self.spec_get(key@, now) is None,
            },
    {
        let mut i: usize = 0;
        while i < self.entries.len()
            invariant
                i <= self.entries@.len(),
                forall|j: int| 0 <= j < i as int ==> (#[trigger] self.entries@[j]).0@ != key@,
            decreases self.entries@.len() - i,
        {
            if crate::frame::str_eq(self.entries[i].0.as_str(), key) {
                proof {
                    lemma_seq_lookup_found::<V>(self.entries@, key@, i as int);
                }
                if now < self.entries[i].2 {
                    return Some(&self.entries[i].1);
                } else {
                    return None;
                }
            }
            i = i + 1;
        }
        proof {
            lemma_seq_lookup_missing::<V>(self.entries@, key@);
        }
        None
    }
}

/// Updating entry `i` in place leaves every other key's lookup as it
/// was.
pub proof fn lemma_lookup_update_other<V: View>(
    orig: Seq<(String, V, u64)>,
    upd: Seq<(String, V, u64)>,
    k: Seq<char>,
    i: int,
)
    requires
        0 <= i < orig.len(),
        upd.len() == orig.len(),
        forall|j: int| 0 <= j < orig.len() && j != i ==> upd[j] == orig[j],
        k != orig[i].0@,
        k != upd[i].0@,
    ensures
        seq_lookup(upd, k) == seq_lookup(orig, k),
    decreases orig.len(),
{
    if orig.len() > 0 {
        if i == 0 {
            assert(upd.drop_first() =~= orig.drop_first());
        } else {
            assert(upd[0] == orig[0]);
            if orig[0].0@ == k {
            } else {
                assert forall|j: int|
                    0 <= j < orig.drop_first().len() && j != i - 1 implies #[trigger] upd.drop_first()[j]
                    == orig.drop_first()[j] by {
                    assert(upd.drop_first()[j] == upd[j + 1]);
                    assert(orig.drop_first()[j] == orig[j + 1]);
                }
                assert(upd.drop_first()[i - 1] == upd[i]);
                assert(orig.drop_first()[i - 1] == orig[i]);
                lemma_lookup_update_other::<V>(orig.drop_first(), upd.drop_first(), k, i - 1);
            }
        }
    }
}

/// Appending an entry for another key leaves a key's lookup as it was.
pub proof fn lemma_lookup_push_other<V: View>(
    orig: Seq<(String, V, u64)>,
    pushed: Seq<(String, V, u64)>,
    k: Seq<char>,
)
    requires
        pushed.len() == orig.len() + 1,
        forall|j: int| 0 <= j < orig.len() ==> pushed[j] == orig[j],
        pushed[orig.len() as int].0@ != k,
    ensures
        seq_lookup(pushed, k) == seq_lookup(orig, k),
    decreases orig.len(),
{
    if orig.len() == 0 {
        assert(pushed.drop_first() =~= Seq::<(String, V, u64)>::empty());
    } else {
        assert(pushed[0] == orig[0]);
        if orig[0].0@ == k {
        } else {
            assert forall|j: int|
                0 <= j < orig.drop_first().len() implies #[trigger] pushed.drop_first()[j]
                == orig.drop_first()[j] by {
                assert(pushed.drop_first()[j] == pushed[j + 1]);
                assert(orig.drop_first()[j] == orig[j + 1]);
            }
            assert(pushed.drop_first()[orig.drop_first().len() as int] == pushed[orig.len() as int]);
            lemma_lookup_push_other::<V>(orig.drop_first(), pushed.drop_first(), k);
        }
    }
}

} // verus!
