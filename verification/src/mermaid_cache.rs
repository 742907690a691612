//! Which Mermaid diagram to draw, and which rendered pictures to keep.
//!
//! The preview keys each rendered picture by a fingerprint of its source and
//! of the look it was drawn for. This index remembers which fingerprints have
//! a picture (and whether rendering succeeded), when each was last used, and,
//! for the n-th Mermaid block of the document, what it showed last. The
//! pictures themselves live with the caller under the same keys.
//!
//! While a block is being edited its diagram is not redrawn at every key
//! press: for [`REDRAW_DELAY_MS`] after a change the last picture that was
//! drawn for the block stands in (preferably one that rendered, so that a
//! diagram does not flicker away while its source is briefly invalid).
//! Failed renders are kept too, so that a source that cannot be drawn is not
//! parsed again at every frame. At most [`MAX_ENTRIES`] pictures are kept;
//! a new one pushes out the one that was used longest ago.
use vstd::prelude::*;

verus! {

/// How many pictures are kept.
pub const MAX_ENTRIES: usize = 16;

/// How long, in milliseconds, an edited block keeps its old picture.
pub const REDRAW_DELAY_MS: u64 = 250;

/// What is known of the n-th Mermaid block of the document. Blocks are
/// counted in document order, so the count drifts with edits; a mismatch only
/// costs one more render.
#[derive(Debug, Clone, Copy)]
pub struct BlockState {
    /// The fingerprint seen last.
    pub wanted: u64,
    /// The fingerprint whose outcome was shown last, drawn or failed.
    pub attempted: Option<u64>,
    /// The fingerprint whose picture was last drawn successfully.
    pub last_ok: Option<u64>,
    /// When `wanted` last changed, in milliseconds of the caller's clock.
    pub changed_at: u64,
}

impl BlockState {
    /// A block first seen with fingerprint `hash` at time `now`.
    pub fn new(hash: u64, now: u64) -> (r: BlockState)
        ensures
            r == new_block(hash, now),
    {
        BlockState { wanted: hash, attempted: None, last_ok: None, changed_at: now }
    }
}

/// A block first seen with fingerprint `hash` at time `now`.
pub open spec fn new_block(hash: u64, now: u64) -> BlockState {
    BlockState { wanted: hash, attempted: None, last_ok: None, changed_at: now }
}

/// A kept picture: its fingerprint, whether rendering succeeded, and the
/// tick at which it was last used.
#[derive(Debug, Clone, Copy)]
pub struct Slot {
    pub key: u64,
    pub ready: bool,
    pub used: u64,
}

/// What the preview should do for a block.
#[derive(Debug, Clone, Copy, PartialEq, Eq, Structural)]
pub enum Plan {
    /// The current source's outcome is kept: show it.
    Show(u64),
    /// The block was changed a moment ago: show the earlier picture
    /// `previous` and look again after `remaining_ms`.
    Wait { previous: u64, remaining_ms: u64 },
    /// Render the current source, then [`MermaidCache::store`] the outcome.
    Render,
}

/// The index of kept pictures and per-block states.
pub struct MermaidCache {
    pub entries: Vec<Slot>,
    pub blocks: Vec<BlockState>,
    /// Counts calls of [`MermaidCache::plan`]; a slot's `used` is a tick.
    pub tick: u64,
}

/// Whether a picture with fingerprint `key` is kept.
pub open spec fn cached(e: Seq<Slot>, key: u64) -> bool {
    exists|i: int| 0 <= i < e.len() && e[i].key == key
}

/// No fingerprint is kept twice.
pub open spec fn keys_distinct(e: Seq<Slot>) -> bool {
    forall|i: int, j: int| 0 <= i < j < e.len() ==> e[i].key != e[j].key
}

/// `m` is the first of the slots used longest ago.
pub open spec fn least_used(e: Seq<Slot>, m: int) -> bool {
    &&& 0 <= m < e.len()
    &&& forall|j: int| 0 <= j < e.len() ==> e[m].used <= e[j].used
    &&& forall|j: int| 0 <= j < m ==> e[j].used > e[m].used
}

/// The earlier picture that may stand in for a block: the last one drawn
/// successfully if it is still kept, else the last outcome shown if kept.
pub open spec fn stand_in(e: Seq<Slot>, st: BlockState) -> Option<u64> {
    if st.last_ok is Some && cached(e, st.last_ok->0) {
        st.last_ok
    } else if st.attempted is Some && cached(e, st.attempted->0) {
        st.attempted
    } else {
        None
    }
}

/// How long, at `now`, the block has gone unchanged.
pub open spec fn idle_ms(st: BlockState, now: u64) -> int {
    if now >= st.changed_at {
        now - st.changed_at
    } else {
        0
    }
}

/// The decision for a block in state `st` whose source has fingerprint
/// `key`, at time `now`.
pub open spec fn decide(e: Seq<Slot>, st: BlockState, key: u64, now: u64) -> Plan {
    if cached(e, key) {
        Plan::Show(key)
    } else if idle_ms(st, now) < REDRAW_DELAY_MS && stand_in(e, st) is Some {
        Plan::Wait {
            previous: stand_in(e, st)->0,
            remaining_ms: (REDRAW_DELAY_MS - idle_ms(st, now)) as u64,
        }
    } else {
        Plan::Render
    }
}

/// The block's state once fingerprint `key` is seen at `now`.
pub open spec fn seen(st: BlockState, key: u64, now: u64) -> BlockState {
    if st.wanted != key {
        BlockState { wanted: key, changed_at: now, ..st }
    } else {
        st
    }
}

/// The block's state once the picture `draw` has been shown.
pub open spec fn shown(st: BlockState, draw: u64, ready: bool) -> BlockState {
    BlockState {
        attempted: Some(draw),
        last_ok: if ready {
            Some(draw)
        } else {
            st.last_ok
        },
        ..st
    }
}

impl MermaidCache {
    /// Fingerprints are distinct and no more than [`MAX_ENTRIES`] are kept.
    pub open spec fn wf(&self) -> bool {
        keys_distinct(self.entries@) && self.entries@.len() <= MAX_ENTRIES
    }

    /// An empty cache.
    pub fn new() -> (r: MermaidCache)
        ensures
            r.wf(),
            r.entries@.len() == 0,
            r.blocks@.len() == 0,
            r.tick == 0,
    {
        MermaidCache { entries: Vec::new(), blocks: Vec::new(), tick: 0 }
    }

    /// Forgets every picture and block (a new document was opened).
    pub fn clear(&mut self)
        ensures
            final(self).wf(),
            final(self).entries@.len() == 0,
            final(self).blocks@.len() == 0,
            final(self).tick == old(self).tick,
    {
        self.entries.clear();
        self.blocks.clear();
    }

    /// The position of the slot for `key`.
    fn position(&self, key: u64) -> (r: Option<usize>)
        ensures
            match r {
                Some(i) => i < self.entries@.len() && self.entries@[i as int].key == key,
                None => !cached(self.entries@, key),
            },
    {
        let mut i: usize = 0;
        while i < self.entries.len()
            invariant
                i <= self.entries@.len(),
                forall|j: int| 0 <= j < i ==> self.entries@[j].key != key,
            decreases self.entries@.len() - i,
        {
            if self.entries[i].key == key {
                return Some(i);
            }
            i += 1;
        }
        None
    }

    /// The first of the slots used longest ago.
    fn least_used_position(&self) -> (m: usize)
        requires
            self.entries@.len() > 0,
        ensures
            least_used(self.entries@, m as int),
    {
        let mut m: usize = 0;
        let mut i: usize = 1;
        while i < self.entries.len()
            invariant
                1 <= i <= self.entries@.len(),
                0 <= m < i,
                forall|j: int| 0 <= j < i ==> self.entries@[m as int].used <= self.entries@[j].used,
                forall|j: int| 0 <= j < m ==> self.entries@[j].used > self.entries@[m as int].used,
            decreases self.entries@.len() - i,
        {
            if self.entries[i].used < self.entries[m].used {
                m = i;
            }
            i += 1;
        }
        m
    }

    /// Starts drawing the `block`-th Mermaid block, whose source now has
    /// fingerprint `key`, at time `now`: counts a tick, records the
    /// fingerprint (and when it changed), and says what to show.
    pub fn plan(&mut self, block: usize, key: u64, now: u64) -> (r: Plan)
        requires
            old(self).wf(),
            old(self).tick < u64::MAX,
            block < usize::MAX,
        ensures
            final(self).wf(),
            final(self).entries@ == old(self).entries@,
            final(self).tick == old(self).tick + 1,
            final(self).blocks@.len() == if block < old(self).blocks@.len() {
                old(self).blocks@.len() as int
            } else {
                block + 1
            },
            forall|i: int|
                0 <= i < old(self).blocks@.len() && i != block ==> final(self).blocks@[i] == old(self).blocks@[i],
            forall|i: int|
                old(self).blocks@.len() <= i < final(self).blocks@.len() && i != block ==> final(self).blocks@[i] == new_block(key, now),
            final(self).blocks@[block as int] == seen(
                if block < old(self).blocks@.len() {
                    old(self).blocks@[block as int]
                } else {
                    new_block(key, now)
                },
                key,
                now,
            ),
            r == decide(old(self).entries@, final(self).blocks@[block as int], key, now),
    {
        self.tick = self.tick + 1;
        let ghost old_blocks = self.blocks@;
        let ghost old_entries = self.entries@;
        let ghost tick = self.tick;
        while self.blocks.len() <= block
            invariant
                block < usize::MAX,
                self.entries@ == old_entries,
                self.tick == tick,
                old_blocks.len() <= self.blocks@.len() <= if block < old_blocks.len() {
                    old_blocks.len() as int
                } else {
                    block + 1
                },
                forall|i: int| 0 <= i < old_blocks.len() ==> self.blocks@[i] == old_blocks[i],
                forall|i: int|
                    old_blocks.len() <= i < self.blocks@.len() ==> self.blocks@[i] == new_block(
                        key,
                        now,
                    ),
            decreases block + 1 - self.blocks@.len(),
        {
            self.blocks.push(BlockState::new(key, now));
        }
        let mut st = self.blocks[block];
        if st.wanted != key {
            st.wanted = key;
            st.changed_at = now;
        }
        self.blocks.set(block, st);
        let idle: u64 = if now >= st.changed_at {
            now - st.changed_at
        } else {
            0
        };
        if self.position(key).is_some() {
            return Plan::Show(key);
        }
        if idle < REDRAW_DELAY_MS {
            let previous = match st.last_ok {
                Some(p) if self.position(p).is_some() => Some(p),
                _ => match st.attempted {
                    Some(p) if self.position(p).is_some() => Some(p),
                    _ => None,
                },
            };
            if let Some(p) = previous {
                return Plan::Wait { previous: p, remaining_ms: REDRAW_DELAY_MS - idle };
            }
        }
        Plan::Render
    }

    /// Keeps the outcome of rendering fingerprint `key` (`ready` when the
    /// picture was drawn), used at the current tick. When the cache is full
    /// and `key` is new, the slot used longest ago makes room, and its
    /// fingerprint is returned so that the caller drops its picture too.
    pub fn store(&mut self, key: u64, ready: bool) -> (evicted: Option<u64>)
        requires
            old(self).wf(),
        ensures
            final(self).wf(),
            final(self).blocks@ == old(self).blocks@,
            final(self).tick == old(self).tick,
            cached(old(self).entries@, key) ==> evicted is None && final(self).entries@.len()
                == old(self).entries@.len() && forall|i: int|
                0 <= i < old(self).entries@.len() ==> final(self).entries@[i] == if old(self).entries@[i].key == key {
                    Slot { key, ready, used: old(self).tick }
                } else {
                    old(self).entries@[i]
                },
            !cached(old(self).entries@, key) && old(self).entries@.len() < MAX_ENTRIES ==> evicted
                is None && final(self).entries@ == old(self).entries@.push(
                Slot { key, ready, used: old(self).tick },
            ),
            !cached(old(self).entries@, key) && old(self).entries@.len() >= MAX_ENTRIES ==> (
            evicted matches Some(k) && exists|m: int|
                least_used(old(self).entries@, m) && old(self).entries@[m].key == k && final(self).entries@ == old(self).entries@.remove(m).push(
                    Slot { key, ready, used: old(self).tick },
                )),
    {
        let slot = Slot { key, ready, used: self.tick };
        match self.position(key) {
            Some(i) => {
                let ghost before = self.entries@;
                self.entries.set(i, slot);
                proof {
                    assert forall|j: int| 0 <= j < before.len() && j != i implies before[j].key
                        != key by {
                        if j < i {
                            assert(before[j].key != before[i as int].key);
                        } else {
                            assert(before[i as int].key != before[j].key);
                        }
                    }
                }
                None
            },
            None => {
                let ghost before = self.entries@;
                let mut evicted: Option<u64> = None;
                if self.entries.len() >= MAX_ENTRIES {
                    let m = self.least_used_position();
                    let gone = self.entries.remove(m);
                    evicted = Some(gone.key);
                    proof {
                        assert forall|a: int, b: int|
                            0 <= a < b < self.entries@.len() implies self.entries@[a].key
                            != self.entries@[b].key by {
                            let a0 = if a < m {
                                a
                            } else {
                                a + 1
                            };
                            let b0 = if b < m {
                                b
                            } else {
                                b + 1
                            };
                            assert(self.entries@[a] == before[a0]);
                            assert(self.entries@[b] == before[b0]);
                        }
                        assert forall|j: int| 0 <= j < self.entries@.len() implies self.entries@[j].key
                            != key by {
                            let j0 = if j < m {
                                j
                            } else {
                                j + 1
                            };
                            assert(self.entries@[j] == before[j0]);
                        }
                    }
                }
                let ghost mid = self.entries@;
                self.entries.push(slot);
                proof {
                    assert forall|a: int, b: int|
                        0 <= a < b < self.entries@.len() implies self.entries@[a].key
                        != self.entries@[b].key by {
                        if b == mid.len() {
                            assert(self.entries@[a] == mid[a]);
                        }
                    }
                }
                evicted
            },
        }
    }

    /// Finishes drawing the `block`-th block with the picture `draw`: the
    /// block remembers it as shown (and as drawn, if it rendered), and the
    /// picture counts as used now. Returns whether it rendered, or `None`
    /// when no picture with that fingerprint is kept.
    pub fn finish(&mut self, block: usize, draw: u64) -> (r: Option<bool>)
        requires
            old(self).wf(),
            block < old(self).blocks@.len(),
        ensures
            final(self).wf(),
            final(self).tick == old(self).tick,
            !cached(old(self).entries@, draw) ==> r is None && final(self).entries@ == old(self).entries@ && final(self).blocks@ == old(self).blocks@.update(
                block as int,
                shown(old(self).blocks@[block as int], draw, false),
            ),
            forall|i: int|
                0 <= i < old(self).entries@.len() && old(self).entries@[i].key == draw ==> {
                    &&& r == Some(old(self).entries@[i].ready)
                    &&& final(self).entries@ == old(self).entries@.update(
                        i,
                        Slot { used: old(self).tick, ..old(self).entries@[i] },
                    )
                    &&& final(self).blocks@ == old(self).blocks@.update(
                        block as int,
                        shown(old(self).blocks@[block as int], draw, old(self).entries@[i].ready),
                    )
                },
    {
        let mut st = self.blocks[block];
        st.attempted = Some(draw);
        match self.position(draw) {
            None => {
                self.blocks.set(block, st);
                None
            },
            Some(i) => {
                let slot = self.entries[i];
                if slot.ready {
                    st.last_ok = Some(draw);
                }
                self.blocks.set(block, st);
                let ghost before = self.entries@;
                self.entries.set(i, Slot { used: self.tick, ..slot });
                proof {
                    assert forall|j: int| 0 <= j < before.len() && before[j].key == draw implies j
                        == i by {
                        if j < i {
                            assert(before[j].key != before[i as int].key);
                        } else if j > i {
                            assert(before[i as int].key != before[j].key);
                        }
                    }
                }
                Some(slot.ready)
            },
        }
    }
}

impl Default for MermaidCache {
    fn default() -> (r: MermaidCache)
        ensures
            r.wf(),
            r.entries@.len() == 0,
            r.blocks@.len() == 0,
            r.tick == 0,
    {
        MermaidCache::new()
    }
}

/// A block is only ever told to show a picture that is kept; a block whose
/// current source has a kept outcome shows it at once; and an earlier
/// picture stands in only while the block was changed less than
/// [`REDRAW_DELAY_MS`] ago, and only for what is left of that delay.
pub proof fn lemma_decide_shows_kept_pictures(e: Seq<Slot>, st: BlockState, key: u64, now: u64)
    ensures
        decide(e, st, key, now) matches Plan::Show(k) ==> k == key && cached(e, k),
        decide(e, st, key, now) matches Plan::Wait { previous, remaining_ms } ==> cached(
            e,
            previous,
        ) && !cached(e, key) && 0 < remaining_ms <= REDRAW_DELAY_MS && idle_ms(st, now)
            + remaining_ms == REDRAW_DELAY_MS,
        cached(e, key) ==> decide(e, st, key, now) == Plan::Show(key),
{
}

} // verus!