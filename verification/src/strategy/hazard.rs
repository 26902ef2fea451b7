//! A hazard-pointer synchronization strategy.
//!
//! The strategy keeps an append-only list of reader slots and a monotonically
//! advancing *generation*. A reader entering the buffer claims a free slot and
//! stamps it with the current generation; leaving stores the free marker back.
//! A swap advances the generation by two (generations stay odd, zero is the
//! free marker) and then captures the slots still stamped with the previous
//! generation: exactly the readers that must drain before the writer may touch
//! the buffer they are looking at.
//!
//! Slots are never removed while the strategy lives, so the list only grows,
//! bounded by the peak number of simultaneous readers, and each reader tag
//! caches the slot it used last so a lone reader reuses one slot forever.

use vstd::prelude::*;

verus! {

broadcast use vstd::seq_lib::group_seq_properties;

/// The generation that preceded `g`: two less, wrapping around.
pub open spec fn prev_gen(g: u32) -> u32 {
    if g >= 2 {
        (g - 2) as u32
    } else {
        (g + 0xFFFF_FFFE) as u32
    }
}

/// The generation that follows `g`: two more, wrapping around.
pub open spec fn next_gen(g: u32) -> u32 {
    if g <= 0xFFFF_FFFD {
        (g + 2) as u32
    } else {
        (g - 0xFFFF_FFFE) as u32
    }
}

/// Advancing a generation and stepping back again round-trips, also at the
/// wraparound boundary.
pub proof fn lemma_gen_roundtrip(g: u32)
    ensures
        prev_gen(next_gen(g)) == g,
        next_gen(g) != g,
{
}

/// Where the swap protocol currently stands.
///
/// `Validated` lies between a successful swap validation and the capture of
/// the readers; the buffer flag is flipped exactly there. `Draining` lasts
/// until every captured reader has left.
pub enum SwapPhase {
    /// No swap is under way.
    Idle,
    /// The generation was advanced; the capture has not been taken yet.
    Validated,
    /// A capture is outstanding; pre-swap readers may still be draining.
    Draining,
}

/// The writer's token for one validated swap: the generation the strategy
/// held when the swap was validated.
pub struct ValidationToken {
    generation: u32,
}

impl ValidationToken {
    /// The pre-swap generation this token stands for.
    pub closed spec fn gen_spec(&self) -> u32 {
        self.generation
    }
}

/// The writer's snapshot of the reader slots that were stamped with the
/// pre-swap generation when the swap began.
pub struct Capture {
    generation: u32,
    members: Vec<usize>,
}

impl Capture {
    /// The captured (pre-swap) generation.
    pub closed spec fn gen_spec(&self) -> u32 {
        self.generation
    }

    /// The captured slot indices.
    pub closed spec fn members_spec(&self) -> Seq<usize> {
        self.members@
    }
}

/// A reader tag: the reader's cached slot index, a pure hint that is
/// revalidated on every use.
#[derive(Clone, Copy)]
pub struct ReaderTag {
    cached: Option<usize>,
}

impl ReaderTag {
    /// The cached slot hint.
    pub closed spec fn cached_spec(&self) -> Option<usize> {
        self.cached
    }
}

/// Evidence of one entered read: the claimed slot and the generation stamped
/// into it.
pub struct ReaderGuard {
    slot: usize,
    generation: u32,
}

impl ReaderGuard {
    /// The slot this guard claimed.
    pub closed spec fn slot_spec(&self) -> usize {
        self.slot
    }

    /// The generation stamped into the slot.
    pub closed spec fn gen_spec(&self) -> u32 {
        self.generation
    }
}

/// The hazard-pointer strategy: the reader slot list, the current generation,
/// and the phase of the swap protocol.
pub struct HazardStrategy {
    slots: Vec<u32>,
    generation: u32,
    phase: SwapPhase,
    pauses: Ghost<nat>,
}

impl HazardStrategy {
    /// The generation stamp of every reader slot, in insertion order.
    /// Zero marks a free slot.
    pub closed spec fn slot_gens(&self) -> Seq<u32> {
        self.slots@
    }

    /// The current generation.
    pub closed spec fn current_gen(&self) -> u32 {
        self.generation
    }

    /// Which phase of the swap protocol the strategy is in.
    pub closed spec fn phase_spec(&self) -> SwapPhase {
        self.phase
    }

    /// How often the writer has paused waiting for readers.
    pub closed spec fn pause_count(&self) -> nat {
        self.pauses@
    }

    /// The strategy's invariant: the generation is odd (so it never collides
    /// with the free marker), and every occupied slot is stamped with the
    /// current generation — or with the previous one while a swap is under
    /// way.
    pub closed spec fn wf(&self) -> bool {
        &&& self.generation % 2 == 1
        &&& (self.phase is Idle ==> forall|i: usize|
            i < self.slots@.len() ==> self.slots@[i as int] == 0 || self.slots@[i as int]
                == self.generation)
        &&& (!(self.phase is Idle) ==> forall|i: usize|
            i < self.slots@.len() ==> self.slots@[i as int] == 0 || self.slots@[i as int]
                == self.generation || self.slots@[i as int] == prev_gen(self.generation))
    }

    /// A well-formed strategy's generation is odd, and in particular never
    /// the free marker.
    pub proof fn lemma_gen_odd(&self)
        requires
            self.wf(),
        ensures
            self.current_gen() % 2 == 1,
            self.current_gen() != 0,
            prev_gen(self.current_gen()) % 2 == 1,
            prev_gen(self.current_gen()) != 0,
    {
    }

    /// Create a strategy with no reader slots, at generation one, with no
    /// swap under way.
    pub fn new() -> (r: Self)
        ensures
            r.wf(),
            r.slot_gens() =~= Seq::<u32>::empty(),
            r.current_gen() == 1,
            r.phase_spec() is Idle,
            r.pause_count() == 0,
    {
        HazardStrategy { slots: Vec::new(), generation: 1, phase: SwapPhase::Idle, pauses: Ghost(0) }
    }

    /// Mint a reader tag with an empty cache.
    pub fn create_reader_tag(&self) -> (r: ReaderTag)
        ensures
            r.cached_spec() is None,
    {
        ReaderTag { cached: None }
    }

    /// A reader tag that is not attached to any strategy; it may be used, but
    /// carries no slot hint.
    pub fn dangling_reader_tag() -> (r: ReaderTag)
        ensures
            r.cached_spec() is None,
    {
        ReaderTag { cached: None }
    }

    /// How many reader slots have ever been allocated.
    pub fn slot_count(&self) -> (r: usize)
        ensures
            r == self.slot_gens().len(),
    {
        self.slots.len()
    }

    /// Register that a reader is entering the buffer now: claim a free slot —
    /// the cached one if it is still free, else the first free slot of the
    /// list, else a fresh slot pushed onto the end — and stamp it with the
    /// current generation.
    pub fn begin_read_guard(&mut self, reader: &mut ReaderTag) -> (g: ReaderGuard)
        requires
            old(self).wf(),
        ensures
            final(self).wf(),
            final(self).current_gen() == old(self).current_gen(),
            final(self).phase_spec() == old(self).phase_spec(),
            final(self).pause_count() == old(self).pause_count(),
            g.gen_spec() == old(self).current_gen(),
            g.slot_spec() < final(self).slot_gens().len(),
            // the claimed slot was free (or is brand new); nothing else moved
            g.slot_spec() < old(self).slot_gens().len() ==> {
                &&& old(self).slot_gens()[g.slot_spec() as int] == 0
                &&& final(self).slot_gens() =~= old(self).slot_gens().update(
                    g.slot_spec() as int,
                    old(self).current_gen(),
                )
            },
            g.slot_spec() == old(self).slot_gens().len() ==> final(self).slot_gens()
                =~= old(self).slot_gens().push(old(self).current_gen()),
            g.slot_spec() <= old(self).slot_gens().len(),
            // a reader whose cached slot is free reuses it: the list does not grow
            (match old(reader).cached_spec() {
                Some(c) => c < old(self).slot_gens().len() && old(self).slot_gens()[c as int] == 0,
                None => false,
            }) ==> g.slot_spec() == old(reader).cached_spec().unwrap(),
            final(reader).cached_spec() == Some(g.slot_spec()),
    {
        let generation = self.generation;
        if let Some(c) = reader.cached {
            if c < self.slots.len() && self.slots[c] == 0 {
                self.slots[c] = generation;
                reader.cached = Some(c);
                return ReaderGuard { slot: c, generation };
            }
        }
        let mut i: usize = 0;
        let n = self.slots.len();
        while i < n
            invariant
                old(self).wf(),
                n == self.slots@.len(),
                i <= n,
                self == old(self),
                reader == old(reader),
                generation == old(self).current_gen(),
                !(match old(reader).cached_spec() {
                    Some(c) => c < old(self).slot_gens().len() && old(self).slot_gens()[c as int]
                        == 0,
                    None => false,
                }),
            decreases n - i,
        {
            if self.slots[i] == 0 {
                self.slots[i] = generation;
                reader.cached = Some(i);
                return ReaderGuard { slot: i, generation };
            }
            i = i + 1;
        }
        self.slots.push(generation);
        let slot = self.slots.len() - 1;
        reader.cached = Some(slot);
        ReaderGuard { slot, generation }
    }

    /// Release a read: store the free marker back into the guard's slot.
    pub fn end_read_guard(&mut self, _reader: &mut ReaderTag, guard: ReaderGuard)
        requires
            old(self).wf(),
            guard.slot_spec() < old(self).slot_gens().len(),
        ensures
            final(self).wf(),
            final(self).current_gen() == old(self).current_gen(),
            final(self).phase_spec() == old(self).phase_spec(),
            final(self).pause_count() == old(self).pause_count(),
            final(self).slot_gens() =~= old(self).slot_gens().update(guard.slot_spec() as int, 0u32),
    {
        self.slots[guard.slot] = 0;
    }

    /// Check whether a swap may proceed. For the hazard strategy it always
    /// may: the generation is advanced by two and the prior value is returned
    /// as the token that classifies readers as pre- or post-swap.
    pub fn validate_swap(&mut self) -> (t: ValidationToken)
        requires
            old(self).wf(),
            old(self).phase_spec() is Idle,
        ensures
            final(self).wf(),
            final(self).phase_spec() is Validated,
            final(self).current_gen() == next_gen(old(self).current_gen()),
            t.gen_spec() == old(self).current_gen(),
            t.gen_spec() == prev_gen(final(self).current_gen()),
            final(self).slot_gens() == old(self).slot_gens(),
            final(self).pause_count() == old(self).pause_count(),
    {
        proof {
            lemma_gen_roundtrip(self.generation);
        }
        let generation = self.generation;
        if generation <= 0xFFFF_FFFD {
            self.generation = generation + 2;
        } else {
            self.generation = generation - 0xFFFF_FFFE;
        }
        self.phase = SwapPhase::Validated;
        ValidationToken { generation }
    }

    /// Record which readers are still in the pre-swap buffer: every slot
    /// stamped with the token's generation joins the capture.
    pub fn capture_readers(&mut self, token: ValidationToken) -> (c: Capture)
        requires
            old(self).wf(),
            old(self).phase_spec() is Validated,
            token.gen_spec() == prev_gen(old(self).current_gen()),
        ensures
            final(self).wf(),
            final(self).phase_spec() is Draining,
            final(self).current_gen() == old(self).current_gen(),
            final(self).slot_gens() == old(self).slot_gens(),
            final(self).pause_count() == old(self).pause_count(),
            c.gen_spec() == token.gen_spec(),
            c.members_spec().no_duplicates(),
            forall|j: int| 0 <= j < c.members_spec().len() ==> {
                &&& c.members_spec()[j] < final(self).slot_gens().len()
                &&& final(self).slot_gens()[c.members_spec()[j] as int] == c.gen_spec()
            },
            forall|i: usize|
                i < final(self).slot_gens().len() && final(self).slot_gens()[i as int]
                    == c.gen_spec() ==> c.members_spec().contains(i),
    {
        let generation = token.generation;
        let mut members: Vec<usize> = Vec::new();
        let n = self.slots.len();
        let mut i: usize = 0;
        while i < n
            invariant
                n == self.slots@.len(),
                i <= n,
                self == old(self),
                generation == token.gen_spec(),
                members@.no_duplicates(),
                forall|j: int| 0 <= j < members@.len() ==> {
                    &&& members@[j] < i
                    &&& self.slots@[members@[j] as int] == generation
                },
                forall|k: usize|
                    k < i && self.slots@[k as int] == generation ==> members@.contains(k),
            decreases n - i,
        {
            if self.slots[i] == generation {
                members.push(i);
            }
            i = i + 1;
        }
        self.phase = SwapPhase::Draining;
        Capture { generation, members }
    }

    /// Probe whether every captured reader has drained. Slots whose stamp no
    /// longer matches the captured generation — freed, or re-entered at the
    /// new generation — leave the capture; the probe succeeds once the
    /// capture is empty, and the swap is then over.
    pub fn have_readers_exited(&mut self, capture: &mut Capture) -> (r: bool)
        requires
            old(self).wf(),
            old(self).phase_spec() is Draining,
            old(capture).gen_spec() == prev_gen(old(self).current_gen()),
            old(capture).members_spec().no_duplicates(),
            forall|j: int| 0 <= j < old(capture).members_spec().len()
                ==> old(capture).members_spec()[j] < old(self).slot_gens().len(),
            forall|i: usize|
                i < old(self).slot_gens().len() && old(self).slot_gens()[i as int]
                    == old(capture).gen_spec() ==> old(capture).members_spec().contains(i),
        ensures
            final(self).wf(),
            final(self).current_gen() == old(self).current_gen(),
            final(self).slot_gens() == old(self).slot_gens(),
            final(self).pause_count() == old(self).pause_count(),
            final(capture).gen_spec() == old(capture).gen_spec(),
            // the capture keeps exactly the members whose slot still holds
            // the captured generation
            final(capture).members_spec().no_duplicates(),
            forall|m: usize|
                final(capture).members_spec().contains(m) <==> (old(capture).members_spec().contains(m)
                    && final(self).slot_gens()[m as int] == final(capture).gen_spec()),
            forall|j: int| 0 <= j < final(capture).members_spec().len()
                ==> final(capture).members_spec()[j] < final(self).slot_gens().len(),
            r == (final(capture).members_spec().len() == 0),
            // once the capture is empty the swap is over and no slot holds
            // the pre-swap generation any more
            r ==> final(self).phase_spec() is Idle,
            r ==> forall|i: usize|
                i < final(self).slot_gens().len()
                    ==> final(self).slot_gens()[i as int] != final(capture).gen_spec(),
            !r ==> final(self).phase_spec() is Draining,
    {
        let generation = capture.generation;
        let mut kept: Vec<usize> = Vec::new();
        let n = capture.members.len();
        let mut i: usize = 0;
        while i < n
            invariant
                n == capture.members@.len(),
                i <= n,
                self == old(self),
                capture.members@ == old(capture).members_spec(),
                generation == capture.gen_spec(),
                capture.members@.no_duplicates(),
                forall|j: int| 0 <= j < capture.members@.len()
                    ==> capture.members@[j] < self.slots@.len(),
                kept@.no_duplicates(),
                forall|j: int| 0 <= j < kept@.len() ==> {
                    &&& self.slots@[kept@[j] as int] == generation
                    &&& kept@[j] < self.slots@.len()
                },
                forall|m: usize|
                    kept@.contains(m) <==> (exists|j: int|
                        0 <= j < i && capture.members@[j] == m && self.slots@[m as int]
                            == generation),
            decreases n - i,
        {
            let m = capture.members[i];
            if self.slots[m] == generation {
                proof {
                    if kept@.contains(m) {
                        let j = choose|j: int|
                            0 <= j < i && capture.members@[j] == m && self.slots@[m as int]
                                == generation;
                        assert(capture.members@[j] == capture.members@[i as int]);
                        assert(false);
                    }
                }
                kept.push(m);
            }
            i = i + 1;
        }
        proof {
            assert(forall|m: usize|
                kept@.contains(m) <==> (capture.members@.contains(m) && self.slots@[m as int]
                    == generation));
        }
        let done = kept.len() == 0;
        if done {
            proof {
                assert forall|i2: usize|
                    i2 < self.slots@.len() implies self.slots@[i2 as int] != generation by {
                    if self.slots@[i2 as int] == generation {
                        assert(old(self).slot_gens()[i2 as int] == old(capture).gen_spec());
                        assert(old(capture).members_spec().contains(i2));
                        assert(kept@.contains(i2));
                        assert(false);
                    }
                }
            }
            capture.members = kept;
            self.phase = SwapPhase::Idle;
        } else {
            capture.members = kept;
        }
        done
    }

    /// Yield while waiting for readers to drain. The model only counts the
    /// pauses; a waiting policy sits in the wait strategies.
    pub fn pause(&mut self)
        requires
            old(self).wf(),
        ensures
            final(self).wf(),
            final(self).slot_gens() == old(self).slot_gens(),
            final(self).current_gen() == old(self).current_gen(),
            final(self).phase_spec() == old(self).phase_spec(),
            final(self).pause_count() == old(self).pause_count() + 1,
    {
        self.pauses = Ghost(self.pauses@ + 1);
    }
}

impl Default for HazardStrategy {
    /// A fresh strategy: no reader slots, generation one, no swap under way.
    fn default() -> (r: Self)
        ensures
            r.wf(),
            r.slot_gens() =~= Seq::<u32>::empty(),
            r.current_gen() == 1,
            r.phase_spec() is Idle,
            r.pause_count() == 0,
    {
        HazardStrategy::new()
    }
}

} // verus!
