use vstd::multiset::Multiset;
use vstd::prelude::*;

verus! {

broadcast use vstd::seq_lib::group_to_multiset_ensures;

/// A file found by a scan: where it is and how many bytes it holds.
#[derive(Debug)]
pub struct FileEntry {
    pub path: String,
    pub size: u64,
}

/// Sizes never grow from the front of `s` to its back.
pub open spec fn sorted_by_size(s: Seq<FileEntry>) -> bool {
    forall|i: int, j: int| 0 <= i < j < s.len() ==> s[i].size >= s[j].size
}

/// `kept` with `e` placed right after the leading entries at least as large as
/// `e`: an entry goes after every entry of equal size that came before it.
pub open spec fn insert_by_size(kept: Seq<FileEntry>, e: FileEntry) -> Seq<FileEntry>
    decreases kept.len(),
{
    if kept.len() == 0 {
        seq![e]
    } else if kept[0].size >= e.size {
        seq![kept[0]] + insert_by_size(kept.drop_first(), e)
    } else {
        seq![e] + kept
    }
}

/// What is kept after `e` is offered to the kept entries `kept`: `e` takes its
/// place by size, and the smallest entry leaves when more than `capacity` remain.
pub open spec fn offer_one(kept: Seq<FileEntry>, e: FileEntry, capacity: nat) -> Seq<FileEntry> {
    let grown = insert_by_size(kept, e);
    if grown.len() > capacity {
        grown.take(capacity as int)
    } else {
        grown
    }
}

/// What is kept after each of `entries` has been offered, in order, to an empty
/// selection of the given capacity.
pub open spec fn top_of(entries: Seq<FileEntry>, capacity: nat) -> Seq<FileEntry>
    decreases entries.len(),
{
    if entries.len() == 0 {
        seq![]
    } else {
        offer_one(top_of(entries.drop_last(), capacity), entries.last(), capacity)
    }
}

proof fn lemma_insert_at(kept: Seq<FileEntry>, e: FileEntry, i: int)
    requires
        0 <= i <= kept.len(),
        forall|j: int| 0 <= j < i ==> kept[j].size >= e.size,
        i == kept.len() || kept[i].size < e.size,
    ensures
        insert_by_size(kept, e) == kept.insert(i, e),
    decreases kept.len(),
{
    if kept.len() == 0 {
        assert(kept.insert(i, e) =~= seq![e]);
    } else if i == 0 {
        assert(kept.insert(i, e) =~= seq![e] + kept);
    } else {
        lemma_insert_at(kept.drop_first(), e, i - 1);
        assert(kept.insert(i, e) =~= seq![kept[0]] + kept.drop_first().insert(i - 1, e));
    }
}

proof fn lemma_insert_by_size(kept: Seq<FileEntry>, e: FileEntry)
    requires
        sorted_by_size(kept),
    ensures
        sorted_by_size(insert_by_size(kept, e)),
        insert_by_size(kept, e).to_multiset() == kept.to_multiset().insert(e),
        insert_by_size(kept, e).len() == kept.len() + 1,
    decreases kept.len(),
{
    broadcast use vstd::seq_lib::lemma_multiset_commutative;

    let r = insert_by_size(kept, e);
    if kept.len() == 0 {
        assert(r.to_multiset() =~= kept.to_multiset().insert(e));
    } else if kept[0].size >= e.size {
        let rest = kept.drop_first();
        let tail = insert_by_size(rest, e);
        lemma_insert_by_size(rest, e);
        assert(kept =~= seq![kept[0]] + rest);
        assert forall|b: int| 0 <= b < tail.len() implies kept[0].size >= tail[b].size by {
            assert(tail.to_multiset().contains(tail[b]));
            if tail[b] != e {
                assert(rest.to_multiset().contains(tail[b]));
                let k = choose|k: int| 0 <= k < rest.len() && rest[k] == tail[b];
                assert(kept[k + 1] == rest[k]);
            }
        }
        assert forall|a: int, b: int| 0 <= a < b < r.len() implies r[a].size >= r[b].size by {
            if a > 0 {
                assert(r[a] == tail[a - 1] && r[b] == tail[b - 1]);
            } else {
                assert(r[b] == tail[b - 1]);
            }
        }
    } else {
        assert forall|a: int, b: int| 0 <= a < b < r.len() implies r[a].size >= r[b].size by {
            if a == 0 {
                assert(kept[0].size >= kept[b - 1].size);
            }
        }
        assert(r.to_multiset() =~= seq![e].to_multiset().add(kept.to_multiset()));
        assert(seq![e].to_multiset() =~= Seq::<FileEntry>::empty().push(e).to_multiset());
    }
}

/// The kept entries are sorted by size and number `min(capacity, |entries|)`.
proof fn lemma_top_of_shape(entries: Seq<FileEntry>, capacity: nat)
    ensures
        sorted_by_size(top_of(entries, capacity)),
        top_of(entries, capacity).len() == if entries.len() < capacity {
            entries.len()
        } else {
            capacity
        },
    decreases entries.len(),
{
    if entries.len() > 0 {
        let before = top_of(entries.drop_last(), capacity);
        lemma_top_of_shape(entries.drop_last(), capacity);
        lemma_insert_by_size(before, entries.last());
    }
}

/// The entries that were offered but are not kept, counted with multiplicity.
pub open spec fn dropped(entries: Seq<FileEntry>, capacity: nat) -> Multiset<FileEntry> {
    entries.to_multiset().sub(top_of(entries, capacity).to_multiset())
}

/// After a whole sequence of entries has been offered, the selection holds
/// `min(capacity, |entries|)` of them, sorted by size from the largest down;
/// each comes from the sequence (with no more copies than it has there), and no
/// entry left out is larger than any entry kept.
pub proof fn lemma_keeps_largest(entries: Seq<FileEntry>, capacity: nat)
    ensures
        top_of(entries, capacity).len() == if entries.len() < capacity {
            entries.len()
        } else {
            capacity
        },
        sorted_by_size(top_of(entries, capacity)),
        top_of(entries, capacity).to_multiset().subset_of(entries.to_multiset()),
        forall|d: FileEntry, k: FileEntry|
            #![trigger dropped(entries, capacity).contains(d), top_of(entries, capacity).contains(k)]
            dropped(entries, capacity).contains(d) && top_of(entries, capacity).contains(k)
                ==> d.size <= k.size,
    decreases entries.len(),
{
    broadcast use vstd::multiset::group_multiset_axioms;

    lemma_top_of_shape(entries, capacity);
    if entries.len() == 0 {
        assert(top_of(entries, capacity).to_multiset() =~= Multiset::<FileEntry>::empty());
        assert(entries.to_multiset() =~= Multiset::<FileEntry>::empty());
    } else {
        let s = entries.drop_last();
        let e = entries.last();
        let k0 = top_of(s, capacity);
        let l = insert_by_size(k0, e);
        let k1 = top_of(entries, capacity);
        lemma_keeps_largest(s, capacity);
        lemma_top_of_shape(s, capacity);
        lemma_insert_by_size(k0, e);
        assert(entries =~= s.push(e));
        if l.len() <= capacity {
            assert(k1 == l);
            assert forall|x: FileEntry| #[trigger]
                entries.to_multiset().count(x) >= k1.to_multiset().count(x) by {}
            assert forall|d: FileEntry, k: FileEntry|
                dropped(entries, capacity).contains(d) && k1.contains(k) implies d.size <= k.size by {
                assert(s.to_multiset().count(d) > k0.to_multiset().count(d));
                assert(s.len() > k0.len()) by {
                    if s.len() <= k0.len() {
                        assert(s.len() == k0.len());
                        assert(s.to_multiset().sub(k0.to_multiset()).len() == 0);
                        assert(s.to_multiset().sub(k0.to_multiset()).count(d) > 0);
                    }
                }
            }
        } else {
            let c = capacity as int;
            let r = l[c];
            assert(l =~= k1.push(r));
            assert(l.to_multiset() == k1.to_multiset().insert(r));
            assert(entries.to_multiset() == s.to_multiset().insert(e));
            assert forall|x: FileEntry| #[trigger]
                entries.to_multiset().count(x) >= k1.to_multiset().count(x) by {
                assert(k0.to_multiset().count(x) <= s.to_multiset().count(x));
                assert(l.to_multiset().count(x) == k0.to_multiset().count(x) + if x == e {
                    1int
                } else {
                    0int
                });
            }
            assert forall|d: FileEntry, k: FileEntry|
                dropped(entries, capacity).contains(d) && k1.contains(k) implies d.size <= k.size by {
                let j = choose|j: int| 0 <= j < k1.len() && k1[j] == k;
                assert(l[j] == k);
                assert(k.size >= r.size);
                if d != r {
                    assert(l.to_multiset().count(d) == k0.to_multiset().count(d) + if d == e {
                        1int
                    } else {
                        0int
                    });
                    assert(s.to_multiset().count(d) > k0.to_multiset().count(d));
                    assert(s.to_multiset().sub(k0.to_multiset()).contains(d));
                    assert(dropped(s, capacity).contains(d));
                    if k0.to_multiset().contains(r) {
                        assert(k0.contains(r));
                        assert(d.size <= r.size);
                    } else {
                        assert(l.contains(r));
                        assert(l.to_multiset().count(r) == k0.to_multiset().count(r) + if r == e {
                            1int
                        } else {
                            0int
                        });
                        assert(r == e);
                        assert forall|x: FileEntry| #[trigger]
                            k1.to_multiset().count(x) == k0.to_multiset().count(x) by {
                            assert(l.to_multiset().count(x) == k0.to_multiset().count(x) + if x
                                == e {
                                1int
                            } else {
                                0int
                            });
                        }
                        assert(k1.to_multiset() =~= k0.to_multiset());
                        assert(k1.to_multiset().contains(k));
                        assert(k0.contains(k));
                    }
                }
            }
        }
    }
}

/// Offering again, in order, what a selection kept gives back the same kept
/// entries: selecting is idempotent.
pub proof fn lemma_reselect_same(entries: Seq<FileEntry>, capacity: nat)
    ensures
        top_of(top_of(entries, capacity), capacity) == top_of(entries, capacity),
{
    lemma_keeps_largest(entries, capacity);
    lemma_sorted_kept_whole(top_of(entries, capacity), capacity);
}

proof fn lemma_sorted_kept_whole(k: Seq<FileEntry>, capacity: nat)
    requires
        sorted_by_size(k),
        k.len() <= capacity,
    ensures
        top_of(k, capacity) == k,
    decreases k.len(),
{
    if k.len() > 0 {
        let front = k.drop_last();
        let n = front.len() as int;
        lemma_sorted_kept_whole(front, capacity);
        assert forall|j: int| 0 <= j < n implies front[j].size >= k.last().size by {
            assert(k[j].size >= k[n].size);
        }
        lemma_insert_at(front, k.last(), n);
        assert(front.insert(n, k.last()) =~= k);
    }
}

/// With room for no entry nothing is kept, whatever is offered; and when
/// nothing is offered nothing is kept.
pub proof fn lemma_nothing_kept(entries: Seq<FileEntry>, capacity: nat)
    ensures
        top_of(entries, 0) == Seq::<FileEntry>::empty(),
        top_of(Seq::<FileEntry>::empty(), capacity) == Seq::<FileEntry>::empty(),
{
    lemma_top_of_shape(entries, 0);
    assert(top_of(entries, 0) =~= Seq::<FileEntry>::empty());
}

/// A selection of the largest entries offered, at most `capacity` of them.
pub struct TopFiles {
    capacity: usize,
    kept: Vec<FileEntry>,
    smallest: u64,
    offered: Ghost<Seq<FileEntry>>,
}

impl TopFiles {
    /// The most entries that are kept.
    pub closed spec fn capacity_spec(&self) -> nat {
        self.capacity as nat
    }

    /// Every entry offered so far, in order.
    pub closed spec fn offered(&self) -> Seq<FileEntry> {
        self.offered@
    }

    /// The entries kept now.
    pub closed spec fn kept(&self) -> Seq<FileEntry> {
        self.kept@
    }

    /// The private bookkeeping agrees with the kept entries.
    pub closed spec fn internal_wf(&self) -> bool {
        &&& sorted_by_size(self.kept@)
        &&& self.kept@.len() <= self.capacity
        &&& self.smallest == if self.kept@.len() == 0 {
            0
        } else {
            self.kept@.last().size
        }
    }

    /// What is kept is exactly what `top_of` gives for the entries offered.
    pub open spec fn wf(&self) -> bool {
        &&& self.kept() == top_of(self.offered(), self.capacity_spec())
        &&& self.internal_wf()
    }

    /// An empty selection that keeps at most `capacity` entries.
    pub fn new(capacity: usize) -> (r: TopFiles)
        ensures
            r.wf(),
            r.capacity_spec() == capacity,
            r.offered() == Seq::<FileEntry>::empty(),
    {
        TopFiles { capacity, kept: Vec::new(), smallest: 0, offered: Ghost(Seq::empty()) }
    }

    /// The most entries that are kept.
    pub fn capacity(&self) -> (r: usize)
        ensures
            r == self.capacity_spec(),
    {
        self.capacity
    }

    /// Offers one more entry: it is kept if there is room or if it is larger
    /// than the smallest kept entry, which then leaves.
    pub fn offer(&mut self, entry: FileEntry)
        requires
            old(self).wf(),
        ensures
            final(self).wf(),
            final(self).offered() == old(self).offered().push(entry),
            final(self).capacity_spec() == old(self).capacity_spec(),
            final(self).kept() == offer_one(old(self).kept(), entry, old(self).capacity_spec()),
    {
        let ghost e = entry;
        let ghost kept0 = self.kept@;
        let ghost offered1 = self.offered@.push(e);
        proof {
            assert(offered1.drop_last() =~= self.offered@);
            lemma_insert_by_size(kept0, e);
        }
        if self.kept.len() == self.capacity && entry.size <= self.smallest {
            proof {
                let n = kept0.len() as int;
                assert forall|j: int| 0 <= j < n implies kept0[j].size >= e.size by {
                    if j < n - 1 {
                        assert(kept0[j].size >= kept0[n - 1].size);
                    }
                }
                lemma_insert_at(kept0, e, n);
                assert(kept0.insert(n, e).take(n) =~= kept0);
            }
        } else {
            let mut i: usize = 0;
            while i < self.kept.len() && self.kept[i].size >= entry.size
                invariant
                    i <= self.kept@.len(),
                    forall|j: int| 0 <= j < i ==> self.kept@[j].size >= entry.size,
                decreases self.kept@.len() - i,
            {
                i = i + 1;
            }
            proof {
                lemma_insert_at(kept0, e, i as int);
            }
            self.kept.insert(i, entry);
            if self.kept.len() > self.capacity {
                self.kept.pop();
                assert(self.kept@ =~= insert_by_size(kept0, e).take(self.capacity as int));
            }
            let n = self.kept.len();
            self.smallest = if n == 0 {
                0
            } else {
                self.kept[n - 1].size
            };
        }
        self.offered = Ghost(offered1);
    }

    /// The kept entries, largest first; among equal sizes, the earlier offered first.
    pub fn entries(&self) -> (r: &Vec<FileEntry>)
        requires
            self.wf(),
        ensures
            r@ == top_of(self.offered(), self.capacity_spec()),
    {
        &self.kept
    }

    /// Two selections of the same capacity that were offered the same entries
    /// in the same order keep the same entries: a second run over a sequence
    /// gives what the first gave.
    pub proof fn lemma_rerun_same(a: &TopFiles, b: &TopFiles)
        requires
            a.wf(),
            b.wf(),
            a.offered() == b.offered(),
            a.capacity_spec() == b.capacity_spec(),
        ensures
            a.kept() == b.kept(),
    {
    }
}

/// The largest `capacity` of `entries`, as a selection that is offered them in
/// order keeps them.
pub fn select_top(entries: Vec<FileEntry>, capacity: usize) -> (r: Vec<FileEntry>)
    ensures
        r@ == top_of(entries@, capacity as nat),
{
    let ghost all = entries@;
    let mut top = TopFiles::new(capacity);
    let mut rest = entries;
    while rest.len() > 0
        invariant
            top.wf(),
            top.capacity_spec() == capacity,
            all == top.offered() + rest@,
        decreases rest@.len(),
    {
        let e = rest.remove(0);
        top.offer(e);
        assert(all =~= top.offered() + rest@);
    }
    assert(all =~= top.offered());
    top.kept
}

} // verus!
