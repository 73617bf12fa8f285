//! Grains: owned, immutable snippets of windowed history with a read
//! cursor and a destination channel.
use vstd::prelude::*;

use crate::fixed::MONO_LIMIT;

verus! {

/// A short windowed snippet of recorded history. `buf` is fixed at
/// creation; `pos` advances by one per processed frame until it reaches
/// `buf.len()`, after which the grain is done and gets removed.
pub struct Grain {
    pub buf: Vec<i64>,
    pub pos: usize,
    pub ch: usize,
}

/// The mathematical image of a grain.
pub ghost struct GrainV {
    pub buf: Seq<i64>,
    pub pos: int,
    pub ch: int,
}

impl View for Grain {
    type V = GrainV;

    open spec fn view(&self) -> GrainV {
        GrainV { buf: self.buf@, pos: self.pos as int, ch: self.ch as int }
    }
}

impl Grain {
    /// A grain is done once its cursor has consumed the whole buffer.
    pub fn done(&self) -> (r: bool)
        ensures
            r == (self@.pos >= self@.buf.len()),
    {
        self.pos >= self.buf.len()
    }
}

/// A well-formed grain: the cursor never passes the end, and every sample
/// is a bounded mono value.
pub open spec fn grain_ok(g: GrainV) -> bool {
    &&& 0 <= g.pos <= g.buf.len()
    &&& 0 <= g.ch
    &&& forall|i: int| 0 <= i < g.buf.len() ==> -MONO_LIMIT <= #[trigger] g.buf[i] <= MONO_LIMIT
}

/// A grain after `steps` frames: the cursor advances, saturating at the
/// buffer end.
pub open spec fn advance_grain(g: GrainV, steps: int) -> GrainV {
    GrainV {
        buf: g.buf,
        pos: if g.pos + steps <= g.buf.len() {
            g.pos + steps
        } else {
            g.buf.len() as int
        },
        ch: g.ch,
    }
}

/// All grains of a set after `steps` frames.
pub open spec fn advance_grains(gs: Seq<GrainV>, steps: int) -> Seq<GrainV> {
    gs.map_values(|g: GrainV| advance_grain(g, steps))
}

/// The live grains: those whose cursor has not reached the buffer end.
pub open spec fn prune_grains(gs: Seq<GrainV>) -> Seq<GrainV> {
    gs.filter(|g: GrainV| g.pos < g.buf.len())
}

/// What grain `g` contributes to output channel `c` of an `n_ch`-channel
/// frame, `step` frames after the start of the block: its current sample
/// if one remains and the grain is routed to `c`, else nothing.
pub open spec fn grain_contrib(g: GrainV, n_ch: int, c: int, step: int) -> int {
    if g.pos + step < g.buf.len() && g.ch % n_ch == c {
        g.buf[g.pos + step] as int
    } else {
        0
    }
}

/// The wet accumulator for channel `c`: the sum of all grains' current
/// samples routed there, `step` frames into the block.
pub open spec fn wet_sum(gs: Seq<GrainV>, n_ch: int, c: int, step: int) -> int
    decreases gs.len(),
{
    if gs.len() == 0 {
        0
    } else {
        wet_sum(gs.drop_last(), n_ch, c, step) + grain_contrib(gs.last(), n_ch, c, step)
    }
}

/// Grains whose buffers hold only zeros contribute nothing to any
/// channel.
pub proof fn lemma_wet_sum_of_silence(gs: Seq<GrainV>, n_ch: int, c: int, step: int)
    requires
        step >= 0,
        forall|k: int| 0 <= k < gs.len() ==> #[trigger] gs[k].pos >= 0,
        forall|k: int, i: int|
            0 <= k < gs.len() && 0 <= i < gs[k].buf.len() ==> #[trigger] gs[k].buf[i] == 0,
    ensures
        wet_sum(gs, n_ch, c, step) == 0,
    decreases gs.len(),
{
    if gs.len() == 0 {
    } else {
        assert(forall|k: int, i: int|
            0 <= k < gs.drop_last().len() && 0 <= i < gs.drop_last()[k].buf.len()
                ==> #[trigger] gs.drop_last()[k].buf[i] == 0) by {
            assert(forall|k: int| 0 <= k < gs.len() - 1 ==> gs.drop_last()[k] == gs[k]);
        }
        lemma_wet_sum_of_silence(gs.drop_last(), n_ch, c, step);
        let g = gs.last();
        assert(gs[gs.len() - 1] == g);
        assert(grain_contrib(g, n_ch, c, step) == 0);
    }
}

} // verus!
