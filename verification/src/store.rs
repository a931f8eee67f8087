use vstd::prelude::*;

use crate::cell::{Decision, RateCell};
use crate::identity::ClientKey;
use crate::policy::Policy;

verus! {

/// One client's slot in the store: the identity, its rate cell, and the tick
/// of the last check that touched it. `last_access` drives eviction only; it
/// plays no part in the rate algorithm.
pub struct StoreEntry {
    pub key: ClientKey,
    pub cell: RateCell,
    pub last_access: u64,
}

/// Whether an entry has sat idle past the retention window at `now`.
pub open spec fn spec_stale(e: StoreEntry, retention: u64, now: u64) -> bool {
    e.last_access + retention < now
}

/// The keyed state store: one rate cell per recently seen client. Entries
/// are created lazily on first sight of a key, treated as brand new again
/// after sitting idle past `retention` ticks, removable in bulk by `sweep`,
/// and capped at `max_keys` distinct clients, beyond which first-seen
/// clients are denied rather than allocated (fail closed).
pub struct KeyedStore {
    pub entries: Vec<StoreEntry>,
    pub retention: u64,
    pub max_keys: usize,
}

impl KeyedStore {
    /// No two entries track the same client.
    pub open spec fn keys_distinct(self) -> bool {
        forall|i: int, j: int|
            0 <= i < j < self.entries@.len() ==> self.entries@[i].key@ != self.entries@[j].key@
    }

    /// Every stored cell satisfies the cell invariant for policy `p`.
    pub open spec fn cells_wf(self, p: Policy) -> bool {
        forall|i: int|
            0 <= i < self.entries@.len() ==> (#[trigger] self.entries@[i]).cell.wf(p)
    }

    pub open spec fn wf(self, p: Policy) -> bool {
        self.keys_distinct() && self.cells_wf(p)
    }

    /// Whether some entry tracks the client with view `k`.
    pub open spec fn has_key(self, k: Seq<char>) -> bool {
        exists|i: int| 0 <= i < self.entries@.len() && (#[trigger] self.entries@[i]).key@ == k
    }

    /// The index of the entry tracking `k`; meaningful under `has_key` and
    /// `keys_distinct`, which make it unique.
    pub open spec fn index_of(self, k: Seq<char>) -> int {
        choose|i: int| 0 <= i < self.entries@.len() && (#[trigger] self.entries@[i]).key@ == k
    }

    /// The entry tracking `k`; meaningful under `has_key`.
    pub open spec fn entry_for(self, k: Seq<char>) -> StoreEntry {
        self.entries@[self.index_of(k)]
    }

    /// The cell a check of known key `k` at `now` actually runs against: the
    /// stored cell — or a fresh full bucket when the entry has sat idle past
    /// the retention window, so that an expired key is indistinguishable
    /// from a brand-new one.
    pub open spec fn spec_effective_cell(self, p: Policy, k: Seq<char>, now: u64) -> RateCell {
        if spec_stale(self.entry_for(k), self.retention, now) {
            RateCell::spec_full(p, now)
        } else {
            self.entry_for(k).cell
        }
    }

    /// The decision a check of `k` at `now` produces, as a function of the
    /// prior store state: a known key runs the cell algorithm (against a
    /// fresh bucket when its entry expired); an unknown key runs a fresh
    /// bucket's first check when there is room, and is denied without a
    /// retry hint when the key ceiling is reached.
    pub open spec fn spec_decision(self, p: Policy, k: Seq<char>, now: u64) -> Decision {
        if self.has_key(k) {
            self.spec_effective_cell(p, k, now).spec_decision(p, now)
        } else if self.entries@.len() < self.max_keys {
            RateCell::spec_full(p, now).spec_decision(p, now)
        } else {
            Decision { allowed: false, retry_after: None }
        }
    }

    /// Creates an empty store with the given retention window and key
    /// ceiling.
    pub fn new(retention: u64, max_keys: usize) -> (s: KeyedStore)
        ensures
            s.entries@.len() == 0,
            s.retention == retention,
            s.max_keys == max_keys,
    {
        KeyedStore { entries: Vec::new(), retention, max_keys }
    }

    /// Linear scan for the entry tracking `key`.
    fn find(&self, key: &ClientKey) -> (r: Option<usize>)
        ensures
            match r {
                Some(i) => i < self.entries@.len() && self.entries@[i as int].key@ == key@,
                None => !self.has_key(key@),
            },
    {
        let n = self.entries.len();
        let mut i: usize = 0;
        while i < n
            invariant
                i <= n,
                n == self.entries@.len(),
                forall|j: int| 0 <= j < i ==> (#[trigger] self.entries@[j]).key@ != key@,
            decreases n - i,
        {
            if self.entries[i].key.same_client(key) {
                return Some(i);
            }
            i += 1;
        }
        None
    }

    /// One admission check for `key` at `now`, with lookup-or-create: a known
    /// key's cell is refilled and checked in place (reset to full first when
    /// the entry expired); an unknown key gets a fresh full-bucket entry and
    /// its first check, unless the key ceiling is reached, in which case the
    /// store is left untouched and the check is denied fail-closed.
    pub fn check_key(&mut self, p: &Policy, key: &ClientKey, now: u64) -> (d: Decision)
        requires
            p.wf(),
            old(self).wf(*p),
        ensures
            final(self).wf(*p),
            check_key_rel(*old(self), *final(self), *p, key@, now, d),
            final(self).has_key(key@) == (old(self).has_key(key@) || old(self).entries@.len()
                < old(self).max_keys),
    {
        let found = self.find(key);
        match found {
            Some(i) => {
                proof {
                    let j = old(self).index_of(key@);
                    assert(old(self).has_key(key@));
                    assert(0 <= j < old(self).entries@.len()
                        && old(self).entries@[j].key@ == key@);
                    assert(j == i as int);
                }
                let e_last_access = self.entries[i].last_access;
                let is_stale = (e_last_access as u128) + (self.retention as u128)
                    < (now as u128);
                let mut cell = if is_stale {
                    RateCell::full(p, now)
                } else {
                    self.entries[i].cell
                };
                assert(cell == old(self).spec_effective_cell(*p, key@, now));
                let d = cell.check(p, now);
                let fresh_key = self.entries[i].key.duplicate();
                self.entries[i] = StoreEntry { key: fresh_key, cell, last_access: now };
                proof {
                    assert(forall|x: int|
                        0 <= x < self.entries@.len() ==> (#[trigger] self.entries@[x]).key@
                            == old(self).entries@[x].key@);
                    assert(final(self).has_key(key@)) by {
                        assert(self.entries@[i as int].key@ == key@);
                    }
                }
                d
            },
            None => {
                if self.entries.len() < self.max_keys {
                    let mut cell = RateCell::full(p, now);
                    let d = cell.check(p, now);
                    let ghost pre = *self;
                    self.entries.push(StoreEntry { key: key.duplicate(), cell, last_access: now });
                    proof {
                        assert(self.entries@.last().key@ == key@);
                        assert(forall|x: int|
                            0 <= x < pre.entries@.len() ==> self.entries@[x]
                                == pre.entries@[x]);
                        assert(final(self).has_key(key@)) by {
                            assert(self.entries@[self.entries@.len() - 1].key@ == key@);
                        }
                    }
                    d
                } else {
                    Decision { allowed: false, retry_after: None }
                }
            },
        }
    }

    /// Removes every entry idle past the retention window at `now`, bounding
    /// memory to the recently active clients. A kept key survives with its
    /// entry untouched, in order; a removed key, on reappearing, is recreated
    /// as brand new.
    pub fn sweep(&mut self, now: u64)
        requires
            old(self).keys_distinct(),
        ensures
            final(self).retention == old(self).retention,
            final(self).max_keys == old(self).max_keys,
            final(self).keys_distinct(),
            final(self).entries@.len() <= old(self).entries@.len(),
            forall|i: int|
                0 <= i < final(self).entries@.len() ==> old(self).entries@.contains(
                    #[trigger] final(self).entries@[i],
                ),
            forall|k: Seq<char>|
                final(self).has_key(k) <==> old(self).has_key(k) && !spec_stale(
                    old(self).entry_for(k),
                    old(self).retention,
                    now,
                ),
            forall|k: Seq<char>|
                final(self).has_key(k) ==> final(self).entry_for(k) == old(self).entry_for(k),
    {
        let ghost orig = self.entries@;
        let ghost pred = |e: StoreEntry| !spec_stale(e, old(self).retention, now);
        let ghost mut done: int = 0;
        let mut kept: Vec<StoreEntry> = Vec::new();
        while self.entries.len() > 0
            invariant
                orig == old(self).entries@,
                self.retention == old(self).retention,
                self.max_keys == old(self).max_keys,
                0 <= done <= orig.len(),
                done + self.entries@.len() == orig.len(),
                self.entries@ == orig.subrange(done, orig.len() as int),
                kept@ == orig.subrange(0, done).filter(pred),
                forall|e: StoreEntry| #[trigger] pred(e) == !spec_stale(
                    e,
                    old(self).retention,
                    now,
                ),
            decreases self.entries@.len(),
        {
            let e = self.entries.remove(0);
            proof {
                assert(e == orig[done]);
                assert(self.entries@ =~= orig.subrange(done + 1, orig.len() as int));
            }
            let keep_it = (e.last_access as u128) + (self.retention as u128) >= (now as u128);
            if keep_it {
                kept.push(e);
            }
            proof {
                reveal(Seq::filter);
                let s2 = orig.subrange(0, done + 1);
                assert(s2.drop_last() =~= orig.subrange(0, done));
                assert(s2.last() == orig[done]);
                assert(kept@ == s2.filter(pred));
                done = done + 1;
            }
        }
        proof {
            assert(orig.subrange(0, orig.len() as int) =~= orig);
        }
        self.entries = kept;
        proof {
            lemma_sweep_post(*old(self), *self, pred, now);
        }
    }
}

/// How one `check_key` call relates the store before (`pre`) and after
/// (`post`): the checked key's entry is created or updated in place, every
/// other entry is untouched, the configuration is unchanged, and the
/// decision is a pure function of the prior state.
pub open spec fn check_key_rel(
    pre: KeyedStore,
    post: KeyedStore,
    p: Policy,
    k: Seq<char>,
    now: u64,
    d: Decision,
) -> bool {
    &&& post.retention == pre.retention
    &&& post.max_keys == pre.max_keys
    &&& d == pre.spec_decision(p, k, now)
    &&& if pre.has_key(k) {
        &&& post.entries@.len() == pre.entries@.len()
        &&& forall|i: int|
            0 <= i < pre.entries@.len() && (#[trigger] pre.entries@[i]).key@ != k
                ==> post.entries@[i] == pre.entries@[i]
        &&& forall|i: int|
            0 <= i < pre.entries@.len() && (#[trigger] pre.entries@[i]).key@ == k
                ==> post.entries@[i].key@ == k && post.entries@[i].cell
                == pre.spec_effective_cell(p, k, now).spec_checked(p, now)
                && post.entries@[i].last_access == now
    } else if pre.entries@.len() < pre.max_keys {
        &&& post.entries@.len() == pre.entries@.len() + 1
        &&& forall|i: int|
            0 <= i < pre.entries@.len() ==> #[trigger] post.entries@[i] == pre.entries@[i]
        &&& post.entries@.last().key@ == k
        &&& post.entries@.last().cell == RateCell::spec_full(p, now).spec_checked(p, now)
        &&& post.entries@.last().last_access == now
    } else {
        post.entries@ == pre.entries@
    }
}

/// Every element of a filtered sequence is an element of the unfiltered one.
proof fn lemma_filter_keeps_entries(s: Seq<StoreEntry>, pred: spec_fn(StoreEntry) -> bool)
    ensures
        forall|j: int|
            0 <= j < s.filter(pred).len() ==> s.contains(#[trigger] s.filter(pred)[j]),
    decreases s.len(),
{
    reveal(Seq::filter);
    if s.len() > 0 {
        let prefix = s.drop_last();
        lemma_filter_keeps_entries(prefix, pred);
        let sub = prefix.filter(pred);
        assert forall|j: int|
            0 <= j < s.filter(pred).len() implies s.contains(#[trigger] s.filter(pred)[j]) by {
            if j < sub.len() {
                assert(prefix.contains(sub[j]));
                let i = choose|i: int| 0 <= i < prefix.len() && prefix[i] == sub[j];
                assert(s[i] == s.filter(pred)[j]);
            } else {
                assert(s.filter(pred)[j] == s[s.len() - 1]);
            }
        }
    }
}

/// Filtering a sequence of entries with pairwise-distinct keys keeps the
/// keys pairwise distinct.
proof fn lemma_filter_keys_distinct(s: Seq<StoreEntry>, pred: spec_fn(StoreEntry) -> bool)
    requires
        forall|i: int, j: int| 0 <= i < j < s.len() ==> s[i].key@ != s[j].key@,
    ensures
        forall|i: int, j: int|
            0 <= i < j < s.filter(pred).len() ==> s.filter(pred)[i].key@ != s.filter(
                pred,
            )[j].key@,
    decreases s.len(),
{
    reveal(Seq::filter);
    if s.len() > 0 {
        let prefix = s.drop_last();
        assert(forall|i: int, j: int|
            0 <= i < j < prefix.len() ==> prefix[i].key@ != prefix[j].key@);
        lemma_filter_keys_distinct(prefix, pred);
        lemma_filter_keeps_entries(prefix, pred);
        let sub = prefix.filter(pred);
        if pred(s.last()) {
            assert forall|i: int| 0 <= i < sub.len() implies sub[i].key@ != s.last().key@ by {
                assert(prefix.contains(sub[i]));
                let i0 = choose|i0: int| 0 <= i0 < prefix.len() && prefix[i0] == sub[i];
                assert(s[i0].key@ != s[s.len() - 1].key@);
            }
            assert(s.filter(pred) == sub.push(s.last()));
        }
    }
}

/// What a completed sweep guarantees, stated over the store before (`pre`)
/// and after (`post`): exactly the entries idle past the retention window
/// are gone, and the surviving entries are untouched.
proof fn lemma_sweep_post(
    pre: KeyedStore,
    post: KeyedStore,
    pred: spec_fn(StoreEntry) -> bool,
    now: u64,
)
    requires
        pre.keys_distinct(),
        post.retention == pre.retention,
        post.max_keys == pre.max_keys,
        post.entries@ == pre.entries@.filter(pred),
        forall|e: StoreEntry| #[trigger] pred(e) == !spec_stale(e, pre.retention, now),
    ensures
        post.keys_distinct(),
        post.entries@.len() <= pre.entries@.len(),
        forall|i: int|
            0 <= i < post.entries@.len() ==> pre.entries@.contains(#[trigger] post.entries@[i]),
        forall|k: Seq<char>|
            post.has_key(k) <==> pre.has_key(k) && !spec_stale(
                pre.entry_for(k),
                pre.retention,
                now,
            ),
        forall|k: Seq<char>| post.has_key(k) ==> post.entry_for(k) == pre.entry_for(k),
{
    let s = pre.entries@;
    lemma_filter_keeps_entries(s, pred);
    lemma_filter_keys_distinct(s, pred);
    s.lemma_filter_len(pred);
    assert forall|k: Seq<char>|
        post.has_key(k) implies pre.has_key(k) && !spec_stale(
        pre.entry_for(k),
        pre.retention,
        now,
    ) && post.entry_for(k) == pre.entry_for(k) by {
        let j = post.index_of(k);
        assert(0 <= j < post.entries@.len() && post.entries@[j].key@ == k);
        s.lemma_filter_pred(pred, j);
        assert(s.contains(post.entries@[j]));
        let i = choose|i: int| 0 <= i < s.len() && s[i] == post.entries@[j];
        assert(s[i].key@ == k);
        assert(pre.has_key(k));
        let ii = pre.index_of(k);
        assert(0 <= ii < s.len() && s[ii].key@ == k);
        assert(ii == i);
        assert(pre.entry_for(k) == post.entries@[j]);
        assert(!spec_stale(pre.entry_for(k), pre.retention, now));
    }
    assert forall|k: Seq<char>|
        pre.has_key(k) && !spec_stale(pre.entry_for(k), pre.retention, now)
        implies post.has_key(k) by {
        let i = pre.index_of(k);
        assert(0 <= i < s.len() && s[i].key@ == k);
        assert(pred(s[i]));
        assert(s.filter(pred).contains(s[i])) by {
            s.filter_lemma(pred);
        }
        let j = choose|j: int| 0 <= j < post.entries@.len() && post.entries@[j] == s[i];
        assert(post.entries@[j].key@ == k);
    }
}

} // verus!
