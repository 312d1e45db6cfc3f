use vstd::prelude::*;

use crate::top_files::{top_of, FileEntry, TopFiles};

verus! {

/// The sum of the sizes of `entries`.
pub open spec fn total_size_of(entries: Seq<FileEntry>) -> int
    decreases entries.len(),
{
    if entries.len() == 0 {
        0
    } else {
        total_size_of(entries.drop_last()) + entries.last().size
    }
}

/// What a scan has gathered: how many files it met, their total size, and the
/// largest of them.
pub struct Scan {
    file_count: u64,
    total_size: u64,
    top: TopFiles,
}

impl Scan {
    /// Every file recorded so far, in order.
    pub closed spec fn recorded(&self) -> Seq<FileEntry> {
        self.top.offered()
    }

    /// The most files that are kept as the largest.
    pub closed spec fn capacity_spec(&self) -> nat {
        self.top.capacity_spec()
    }

    /// The number of files recorded.
    pub closed spec fn file_count_spec(&self) -> nat {
        self.file_count as nat
    }

    /// The total size of the files recorded.
    pub closed spec fn total_size_spec(&self) -> nat {
        self.total_size as nat
    }

    /// The largest files recorded, largest first.
    pub closed spec fn kept(&self) -> Seq<FileEntry> {
        self.top.kept()
    }

    /// The selection is sound.
    pub closed spec fn selection_wf(&self) -> bool {
        self.top.wf()
    }

    /// The count, the total and the kept files all agree with what was recorded.
    pub open spec fn wf(&self) -> bool {
        &&& self.selection_wf()
        &&& self.file_count_spec() == self.recorded().len()
        &&& self.total_size_spec() == total_size_of(self.recorded())
        &&& self.kept() == top_of(self.recorded(), self.capacity_spec())
    }

    /// A scan that has met no file yet and keeps the `capacity` largest.
    pub fn new(capacity: usize) -> (r: Scan)
        ensures
            r.wf(),
            r.capacity_spec() == capacity,
            r.recorded() == Seq::<FileEntry>::empty(),
            r.file_count_spec() == 0,
            r.total_size_spec() == 0,
            r.kept() == Seq::<FileEntry>::empty(),
    {
        Scan { file_count: 0, total_size: 0, top: TopFiles::new(capacity) }
    }

    /// Whether a file of `size` bytes can be recorded without the count or
    /// the total leaving the range of `u64`.
    pub fn can_record(&self, size: u64) -> (r: bool)
        ensures
            r == (self.file_count_spec() < u64::MAX && self.total_size_spec() + size
                <= u64::MAX),
    {
        self.file_count < u64::MAX && size <= u64::MAX - self.total_size
    }

    /// Records one more file.
    pub fn record(&mut self, entry: FileEntry)
        requires
            old(self).wf(),
            old(self).file_count_spec() < u64::MAX,
            old(self).total_size_spec() + entry.size <= u64::MAX,
        ensures
            final(self).wf(),
            final(self).recorded() == old(self).recorded().push(entry),
            final(self).capacity_spec() == old(self).capacity_spec(),
            final(self).file_count_spec() == old(self).file_count_spec() + 1,
            final(self).total_size_spec() == old(self).total_size_spec() + entry.size,
    {
        let ghost before = self.top.offered();
        self.file_count = self.file_count + 1;
        self.total_size = self.total_size + entry.size;
        self.top.offer(entry);
        assert(self.top.offered().drop_last() =~= before);
    }

    /// The number of files recorded.
    pub fn file_count(&self) -> (r: u64)
        ensures
            r == self.file_count_spec(),
    {
        self.file_count
    }

    /// The total size of the files recorded.
    pub fn total_size(&self) -> (r: u64)
        ensures
            r == self.total_size_spec(),
    {
        self.total_size
    }

    /// The largest files recorded, largest first; among equal sizes the one
    /// recorded first comes first.
    pub fn top(&self) -> (r: &Vec<FileEntry>)
        requires
            self.wf(),
        ensures
            r@ == top_of(self.recorded(), self.capacity_spec()),
    {
        self.top.entries()
    }
}

/// Records each of `entries` in a fresh scan that keeps the `capacity` largest;
/// `None` when the total size would leave the range of `u64`.
pub fn scan_entries(entries: Vec<FileEntry>, capacity: usize) -> (r: Option<Scan>)
    requires
        entries@.len() < u64::MAX,
    ensures
        r.is_none() <==> total_size_of(entries@) > u64::MAX,
        r matches Some(s) ==> s.wf() && s.recorded() == entries@ && s.capacity_spec()
            == capacity,
{
    let ghost all = entries@;
    let mut scan = Scan::new(capacity);
    let mut rest = entries;
    while rest.len() > 0
        invariant
            scan.wf(),
            scan.capacity_spec() == capacity,
            all == scan.recorded() + rest@,
            all == entries@,
            all.len() < u64::MAX,
            scan.total_size_spec() <= u64::MAX,
        decreases rest@.len(),
    {
        let e = rest.remove(0);
        if !scan.can_record(e.size) {
            proof {
                assert(all =~= scan.recorded() + seq![e] + rest@);
                lemma_total_size_prefix(all, scan.recorded().len() as int + 1);
                assert(all.subrange(0, scan.recorded().len() as int + 1) =~= scan.recorded().push(e));
                assert(scan.recorded().push(e).drop_last() =~= scan.recorded());
                assert(total_size_of(scan.recorded().push(e)) > u64::MAX);
                assert(total_size_of(all) > u64::MAX);
            }
            return None;
        }
        scan.record(e);
        assert(all =~= scan.recorded() + rest@);
    }
    assert(all =~= scan.recorded());
    Some(scan)
}

/// A total never shrinks as more entries are added.
proof fn lemma_total_size_prefix(entries: Seq<FileEntry>, n: int)
    requires
        0 <= n <= entries.len(),
    ensures
        total_size_of(entries.subrange(0, n)) <= total_size_of(entries),
    decreases entries.len(),
{
    if n < entries.len() {
        assert(entries.drop_last().subrange(0, n) =~= entries.subrange(0, n));
        lemma_total_size_prefix(entries.drop_last(), n);
    } else {
        assert(entries.subrange(0, n) =~= entries);
    }
}

/// An empty scan has counted nothing and kept nothing.
pub proof fn lemma_empty_scan(capacity: nat)
    ensures
        total_size_of(Seq::<FileEntry>::empty()) == 0,
        top_of(Seq::<FileEntry>::empty(), capacity) == Seq::<FileEntry>::empty(),
{
}

} // verus!
