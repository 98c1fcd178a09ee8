//! The processed-commands set: which `(source, sequence_number)`
//! pairs this peer has already applied, each remembered for a bounded
//! window.
use vstd::prelude::*;

verus! {

/// The dedup window in milliseconds: how long an applied pair is
/// remembered.
pub const DEDUP_WINDOW_MS: u64 = 30000;

/// The pairs already applied, each with the moment its memory ends.
#[derive(Debug, Clone)]
pub struct ProcessedCommands {
    entries: Vec<(String, u64, u64)>,
}

impl ProcessedCommands {
    /// True when the pair is remembered as applied at time `now`.
    pub closed spec fn spec_has(self, source: Seq<char>, sequence_number: u64, now: u64) -> bool {
        exists|i: int|
            0 <= i < self.entries@.len() && (#[trigger] self.entries@[i]).0@ == source
                && self.entries@[i].1 == sequence_number && now < self.entries@[i].2
    }

    /// An empty set: nothing has been applied.
    pub fn new() -> (r: ProcessedCommands)
        ensures
            forall|s: Seq<char>, q: u64, n: u64| !r.spec_has(s, q, n),
    {
        ProcessedCommands { entries: Vec::new() }
    }

    /// True when the pair is remembered as applied at time `now`.
    pub fn contains(&self, source: &str, sequence_number: u64, now: u64) -> (r: bool)
        ensures
            r == self.spec_has(source@, sequence_number, now),
    {
        let mut i: usize = 0;
        while i < self.entries.len()
            invariant
                i <= self.entries@.len(),
                forall|j: int|
                    0 <= j < i as int ==> !((#[trigger] self.entries@[j]).0@ == source@
                        && self.entries@[j].1 == sequence_number && now < self.entries@[j].2),
            decreases self.entries@.len() - i,
        {
            if crate::frame::str_eq(self.entries[i].0.as_str(), source) && self.entries[i].1
                == sequence_number && now < self.entries[i].2 {
                return true;
            }
            i = i + 1;
        }
        false
    }

    /// Remembers the pair as applied from `now` until the window ends.
    pub fn mark(&mut self, source: &str, sequence_number: u64, now: u64)
        requires
            now + DEDUP_WINDOW_MS <= u64::MAX,
        ensures
            forall|s: Seq<char>, q: u64, n: u64|
                final(self).spec_has(s, q, n) == (old(self).spec_has(s, q, n) || (s == source@ && q
                    == sequence_number && n < now + DEDUP_WINDOW_MS)),
    {
        let ghost before = self.entries@;
        let entry = (source.to_owned(), sequence_number, now + DEDUP_WINDOW_MS);
        self.entries.push(entry);
        proof {
            assert forall|s: Seq<char>, q: u64, n: u64| true implies #[trigger] self.spec_has(
                s,
                q,
                n,
            ) == (old(self).spec_has(s, q, n) || (s == source@ && q == sequence_number && n < now
                + DEDUP_WINDOW_MS)) by {
                let now_entries = self.entries@;
                if old(self).spec_has(s, q, n) {
                    let i = choose|i: int|
                        0 <= i < before.len() && (#[trigger] before[i]).0@ == s && before[i].1 == q
                            && n < before[i].2;
                    assert(now_entries[i] == before[i]);
                }
                if s == source@ && q == sequence_number && n < now + DEDUP_WINDOW_MS {
                    assert(now_entries[before.len() as int].0@ == s);
                }
                if self.spec_has(s, q, n) {
                    let i = choose|i: int|
                        0 <= i < now_entries.len() && (#[trigger] now_entries[i]).0@ == s
                            && now_entries[i].1 == q && n < now_entries[i].2;
                    if i < before.len() {
                        assert(before[i] == now_entries[i]);
                    }
                }
            }
        }
    }
}

} // verus!
