//! A single-owner strategy that tracks precisely which readers are reading.
//!
//! Each reader carries a number; beginning a read files that number in a slab
//! of active reads, whose key goes into the read guard. A capture snapshots
//! the slab's entries, and the drain probe drops every captured entry that
//! has since left the slab or been replaced in it.
//!
//! The slab itself comes from the `slab` crate and stands behind trusted
//! declarations; what it holds is named by [`slab_entries`], and every use
//! states its effect on that map.

use vstd::prelude::*;

verus! {

broadcast use vstd::seq_lib::group_seq_properties;

/// The `slab::Slab` type, declared so that the strategy can hold one.
#[verifier::external_type_specification]
#[verifier::external_body]
#[verifier::reject_recursive_types(T)]
pub struct ExSlab<T>(slab::Slab<T>);

/// A slab of reader numbers.
pub type ReaderSlab = slab::Slab<usize>;

/// What a slab of reader numbers holds: the map from occupied keys to the
/// values stored under them.
pub uninterp spec fn slab_entries(s: slab::Slab<usize>) -> Map<usize, usize>;

/// Relies on `slab::Slab::new`: a fresh slab holds nothing.
#[verifier::external_body]
fn slab_new() -> (r: ReaderSlab)
    ensures
        slab_entries(r).dom() == Set::<usize>::empty(),
{
    slab::Slab::new()
}

/// Relies on `slab::Slab::insert`: the value is stored under a key that was
/// vacant, and that key is returned.
#[verifier::external_body]
fn slab_insert(s: &mut slab::Slab<usize>, value: usize) -> (key: usize)
    ensures
        !slab_entries(*old(s)).dom().contains(key),
        slab_entries(*final(s)) == slab_entries(*old(s)).insert(key, value),
{
    s.insert(value)
}

/// Relies on `slab::Slab::remove`: the value stored under the key is taken
/// out and returned. The key must be occupied; `remove` panics otherwise.
#[verifier::external_body]
fn slab_remove(s: &mut slab::Slab<usize>, key: usize) -> (r: usize)
    requires
        slab_entries(*old(s)).dom().contains(key),
    ensures
        r == slab_entries(*old(s))[key],
        slab_entries(*final(s)) == slab_entries(*old(s)).remove(key),
{
    s.remove(key)
}

/// Relies on `slab::Slab::get`: the value stored under the key, if the key
/// is occupied.
#[verifier::external_body]
fn slab_get_copied(s: &slab::Slab<usize>, key: usize) -> (r: Option<usize>)
    ensures
        r == (if slab_entries(*s).dom().contains(key) {
            Some(slab_entries(*s)[key])
        } else {
            None::<usize>
        }),
{
    s.get(key).copied()
}

/// Relies on `slab::Slab::len`: how many keys are occupied.
#[verifier::external_body]
fn slab_len(s: &slab::Slab<usize>) -> (r: usize)
    requires
        slab_entries(*s).dom().finite(),
    ensures
        r == slab_entries(*s).dom().len(),
{
    s.len()
}

/// Relies on `slab::Slab::iter`: every occupied key is yielded exactly once,
/// with the value stored under it.
#[verifier::external_body]
fn slab_pairs(s: &slab::Slab<usize>) -> (r: Vec<(usize, usize)>)
    ensures
        forall|j: int| 0 <= j < r@.len() ==> slab_entries(*s).contains_pair(
            (#[trigger] r@[j]).0,
            r@[j].1,
        ),
        forall|k: usize|
            slab_entries(*s).dom().contains(k) ==> exists|j: int|
                0 <= j < r@.len() && (#[trigger] r@[j]).0 == k,
        forall|i: int, j: int| 0 <= i < j < r@.len() ==> (#[trigger] r@[i]).0 != (#[trigger] r@[j]).0,
{
    s.iter().map(|p: (usize, &usize)| (p.0, *p.1)).collect()
}

/// A reader's identity and, while it reads, the slab key of its active read.
pub struct ReaderTag {
    index: usize,
    guard_index: usize,
}

/// The key that marks "no active read" in a reader tag.
pub const NO_GUARD: usize = usize::MAX;

impl ReaderTag {
    /// The reader's number.
    pub closed spec fn index_spec(&self) -> usize {
        self.index
    }

    /// The slab key of the reader's active read, or `NO_GUARD`.
    pub closed spec fn guard_spec(&self) -> usize {
        self.guard_index
    }
}

/// The strategy found no obstacle to a swap; tracking never does.
pub struct ValidationToken {
    token: (),
}

/// The writer's snapshot of the active reads at swap time: slab key and
/// reader number of each.
pub struct Capture {
    pairs: Vec<(usize, usize)>,
}

impl Capture {
    /// The captured (key, reader number) pairs.
    pub closed spec fn pairs_spec(&self) -> Seq<(usize, usize)> {
        self.pairs@
    }
}

/// The tracking strategy: the slab of active reads and the next reader
/// number.
pub struct LocalTrackingStrategy {
    active_readers: slab::Slab<usize>,
    index: usize,
}

impl LocalTrackingStrategy {
    /// The active reads: slab key to reader number.
    pub closed spec fn readers_spec(&self) -> Map<usize, usize> {
        slab_entries(self.active_readers)
    }

    /// The next reader number.
    pub closed spec fn index_spec(&self) -> usize {
        self.index
    }

    /// The strategy's invariant: the set of active reads stays finite.
    pub open spec fn wf(&self) -> bool {
        self.readers_spec().dom().finite()
    }

    /// Create a strategy with no readers.
    pub fn new() -> (r: Self)
        ensures
            r.wf(),
            r.readers_spec() == Map::<usize, usize>::empty(),
            r.index_spec() == 0,
    {
        LocalTrackingStrategy { active_readers: slab_new(), index: 0 }
    }

    /// Mint a reader tag with a fresh number and no active read.
    pub fn create_reader_tag(&mut self) -> (r: ReaderTag)
        requires
            old(self).index_spec() < NO_GUARD,
        ensures
            final(self).readers_spec() == old(self).readers_spec(),
            final(self).index_spec() == old(self).index_spec() + 1,
            r.index_spec() == old(self).index_spec(),
            r.guard_spec() == NO_GUARD,
    {
        let index = self.index;
        self.index = self.index + 1;
        ReaderTag { index, guard_index: NO_GUARD }
    }

    /// A reader tag attached to nothing; it cannot begin a read.
    pub fn dangling_reader_tag() -> (r: ReaderTag)
        ensures
            r.index_spec() == NO_GUARD,
            r.guard_spec() == NO_GUARD,
    {
        ReaderTag { index: NO_GUARD, guard_index: NO_GUARD }
    }

    /// How many reads are active.
    pub fn active_reads(&self) -> (r: usize)
        requires
            self.wf(),
        ensures
            r == self.readers_spec().dom().len(),
    {
        slab_len(&self.active_readers)
    }

    /// Check whether a swap may proceed; for the tracking strategy it always
    /// may.
    pub fn validate_swap(&self) -> (t: ValidationToken)
        ensures
            true,
    {
        ValidationToken { token: () }
    }

    /// Register that a reader is entering the buffer: its number is filed in
    /// the slab and the key goes into its tag.
    pub fn begin_read_guard(&mut self, reader: &mut ReaderTag)
        requires
            old(self).wf(),
            old(reader).guard_spec() == NO_GUARD,
            old(reader).index_spec() != NO_GUARD,
        ensures
            final(self).wf(),
            final(self).index_spec() == old(self).index_spec(),
            !old(self).readers_spec().dom().contains(final(reader).guard_spec()),
            final(self).readers_spec() == old(self).readers_spec().insert(
                final(reader).guard_spec(),
                old(reader).index_spec(),
            ),
            final(reader).index_spec() == old(reader).index_spec(),
            final(reader).guard_spec() != NO_GUARD || final(self).readers_spec().dom().contains(
                NO_GUARD,
            ),
    {
        let key = slab_insert(&mut self.active_readers, reader.index);
        reader.guard_index = key;
    }

    /// Release a read: the reader's entry leaves the slab.
    pub fn end_read_guard(&mut self, reader: &mut ReaderTag)
        requires
            old(self).wf(),
            old(self).readers_spec().dom().contains(old(reader).guard_spec()),
            old(self).readers_spec()[old(reader).guard_spec()] == old(reader).index_spec(),
        ensures
            final(self).wf(),
            final(self).index_spec() == old(self).index_spec(),
            final(self).readers_spec() == old(self).readers_spec().remove(old(reader).guard_spec()),
            final(reader).index_spec() == old(reader).index_spec(),
            final(reader).guard_spec() == NO_GUARD,
    {
        let taken = slab_remove(&mut self.active_readers, reader.guard_index);
        let _ = taken;
        reader.guard_index = NO_GUARD;
    }

    /// Record which readers are currently in the pre-swap buffer: all of
    /// them, as the slab stands at this moment.
    pub fn capture_readers(&self, token: ValidationToken) -> (c: Capture)
        requires
            self.wf(),
        ensures
            forall|j: int| 0 <= j < c.pairs_spec().len() ==> self.readers_spec().contains_pair(
                (#[trigger] c.pairs_spec()[j]).0,
                c.pairs_spec()[j].1,
            ),
            forall|k: usize|
                self.readers_spec().dom().contains(k) ==> exists|j: int|
                    0 <= j < c.pairs_spec().len() && (#[trigger] c.pairs_spec()[j]).0 == k,
            forall|i: int, j: int|
                0 <= i < j < c.pairs_spec().len() ==> (#[trigger] c.pairs_spec()[i]).0 != (
                #[trigger] c.pairs_spec()[j]).0,
    {
        let _ = token;
        let pairs = slab_pairs(&self.active_readers);
        let ghost view = pairs@;
        let c = Capture { pairs };
        proof {
            assert(c.pairs_spec() == view);
        }
        c
    }

    /// Probe whether every captured reader has drained. Captured entries
    /// whose slab key no longer holds the captured reader number — released,
    /// or reused by another reader — leave the capture; the probe succeeds
    /// once it is empty.
    pub fn have_readers_exited(&self, capture: &mut Capture) -> (r: bool)
        ensures
            forall|p: (usize, usize)|
                final(capture).pairs_spec().contains(p) <==> (old(
                    capture,
                ).pairs_spec().contains(p) && self.readers_spec().dom().contains(p.0)
                    && self.readers_spec()[p.0] == p.1),
            r == (final(capture).pairs_spec().len() == 0),
    {
        let n = capture.pairs.len();
        let mut kept: Vec<(usize, usize)> = Vec::new();
        let mut i: usize = 0;
        while i < n
            invariant
                n == capture.pairs_spec().len(),
                i <= n,
                forall|p: (usize, usize)|
                    kept@.contains(p) <==> (exists|j: int|
                        0 <= j < i && capture.pairs_spec()[j] == p
                            && self.readers_spec().dom().contains(p.0) && self.readers_spec()[p.0]
                            == p.1),
            decreases n - i,
        {
            let (key, idx) = capture.pairs[i];
            match slab_get_copied(&self.active_readers, key) {
                Some(v) => {
                    if v == idx {
                        kept.push((key, idx));
                    }
                },
                None => {},
            }
            i = i + 1;
        }
        let done = kept.len() == 0;
        capture.pairs = kept;
        done
    }
}

} // verus!
