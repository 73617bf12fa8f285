//! The granular engine: history ring buffer, grain pool, scheduler and
//! per-block mixing.
use vstd::prelude::*;

use crate::fixed::div_q;
use crate::fixed::mul_q;
use crate::fixed::MAX_CHANNELS;
use crate::fixed::MONO_LIMIT;
use crate::fixed::SAMPLE_LIMIT;
use crate::fixed::WET_LIMIT;
use crate::grain::advance_grain;
use crate::grain::advance_grains;
use crate::grain::grain_contrib;
use crate::grain::grain_ok;
use crate::grain::prune_grains;
use crate::grain::wet_sum;
use crate::grain::Grain;
use crate::grain::GrainV;
use crate::params::params_next;
use crate::params::params_ok;
use crate::params::GranularParams;
use crate::params::ParamsV;
use crate::window::apply_tukey;
use crate::window::tukey_weight;

verus! {

/// Most grains alive at once; the scheduler skips a full pool.
pub const MAX_GRAINS: usize = 25;

/// Seconds of history the ring buffer keeps.
pub const RING_SECONDS: u32 = 5;

/// The taper fraction of every grain window: 0.2 in Q16.
pub const TUKEY_ALPHA_Q: i64 = 13107;

/// Highest accepted sample rate, in Hz.
pub const MAX_SAMPLE_RATE: u32 = 1000000;

/// The engine. It owns the circular history of recent downmixed input,
/// the pool of live grains, and the smoothed controls; one instance
/// serves one stream.
///
/// Two deliberate design choices: the downmix *sums* the channels of a
/// frame (it does not average them), and each grain's wet signal is
/// *routed* to its single assigned channel rather than broadcast to all.
pub struct Granular {
    /// The four smoothed controls, targets set by the host.
    pub params: GranularParams,
    ring: Vec<i64>,
    wr: usize,
    grains: Vec<Grain>,
    sr: u32,
}

/// The mathematical image of the engine.
pub ghost struct GranularV {
    pub params: ParamsV,
    pub ring: Seq<i64>,
    pub wr: int,
    pub grains: Seq<GrainV>,
    pub sr: int,
}

/// The images of a sequence of grains.
pub open spec fn grains_view(gs: Seq<Grain>) -> Seq<GrainV> {
    gs.map_values(|g: Grain| g@)
}

impl View for Granular {
    type V = GranularV;

    closed spec fn view(&self) -> GranularV {
        GranularV {
            params: self.params@,
            ring: self.ring@,
            wr: self.wr as int,
            grains: grains_view(self.grains@),
            sr: self.sr as int,
        }
    }
}

/// The engine invariant: the ring holds `RING_SECONDS` seconds of bounded
/// samples, the write cursor is in range, the pool never exceeds
/// `MAX_GRAINS` well-formed grains, and the controls are well formed.
/// `sr == 0` is the not-yet-initialized state, with an empty ring.
pub open spec fn inv(v: GranularV) -> bool {
    &&& 0 <= v.sr <= MAX_SAMPLE_RATE
    &&& v.ring.len() == 5 * v.sr
    &&& if v.ring.len() == 0 {
        v.wr == 0
    } else {
        0 <= v.wr < v.ring.len()
    }
    &&& v.grains.len() <= MAX_GRAINS
    &&& forall|k: int| 0 <= k < v.grains.len() ==> grain_ok(#[trigger] v.grains[k])
    &&& forall|i: int| 0 <= i < v.ring.len() ==> -MONO_LIMIT <= #[trigger] v.ring[i] <= MONO_LIMIT
    &&& params_ok(v.params)
}

/// An initialized engine has a nonempty ring to record into.
pub open spec fn initialized(v: GranularV) -> bool {
    v.sr >= 1
}

fn zeros(n: usize) -> (v: Vec<i64>)
    ensures
        v@ == Seq::new(n as nat, |i: int| 0i64),
{
    let mut v: Vec<i64> = Vec::new();
    let mut i: usize = 0;
    while i < n
        invariant
            i <= n,
            v@.len() == i,
            forall|j: int| 0 <= j < i ==> #[trigger] v@[j] == 0i64,
        decreases n - i,
    {
        v.push(0);
        i = i + 1;
    }
    proof {
        assert(v@ =~= Seq::new(n as nat, |i: int| 0i64));
    }
    v
}

impl Default for Granular {
    /// A fresh engine: default controls, no history, no grains. It must
    /// be initialized with a sample rate before processing.
    fn default() -> (r: Granular)
        ensures
            inv(r@),
            !initialized(r@),
            r@.grains.len() == 0,
            r@.ring.len() == 0,
            r@.params == crate::params::default_params(),
    {
        let g = Granular {
            params: GranularParams::default(),
            ring: Vec::new(),
            wr: 0,
            grains: Vec::new(),
            sr: 0,
        };
        proof {
            assert(grains_view(g.grains@) =~= Seq::<GrainV>::empty());
        }
        g
    }
}

impl Granular {
    /// (Re)allocates the history buffer for `RING_SECONDS` seconds at the
    /// given sample rate and resets the stream state: write cursor at
    /// zero, no grains, silent history. Control targets survive. Returns
    /// whether the rate was accepted; on `false` nothing changes.
    pub fn initialize(&mut self, sample_rate: u32, _max_block_size: usize) -> (ok: bool)
        requires
            inv(old(self)@),
        ensures
            inv(final(self)@),
            ok == (1 <= sample_rate <= MAX_SAMPLE_RATE),
            ok ==> final(self)@ == (GranularV {
                params: old(self)@.params,
                ring: Seq::new((5 * sample_rate) as nat, |i: int| 0i64),
                wr: 0,
                grains: Seq::<GrainV>::empty(),
                sr: sample_rate as int,
            }),
            !ok ==> final(self)@ == old(self)@,
    {
        if sample_rate < 1 || sample_rate > MAX_SAMPLE_RATE {
            return false;
        }
        let c: usize = 5 * (sample_rate as usize);
        self.ring = zeros(c);
        self.wr = 0;
        self.grains = Vec::new();
        self.sr = sample_rate;
        proof {
            assert(grains_view(self.grains@) =~= Seq::<GrainV>::empty());
        }
        true
    }

    /// Clears the stream for a transport restart: write cursor at zero,
    /// grain pool emptied, history zero-filled. Rate and controls stay.
    pub fn reset(&mut self)
        requires
            inv(old(self)@),
        ensures
            inv(final(self)@),
            final(self)@ == (GranularV {
                ring: Seq::new(old(self)@.ring.len() as nat, |i: int| 0i64),
                wr: 0,
                grains: Seq::<GrainV>::empty(),
                ..old(self)@
            }),
    {
        let n = self.ring.len();
        self.ring = zeros(n);
        self.wr = 0;
        self.grains = Vec::new();
        proof {
            assert(grains_view(self.grains@) =~= Seq::<GrainV>::empty());
        }
    }

    /// Copies `len` history samples starting at `start`, wrapping at the
    /// end of the ring.
    #[verifier::loop_isolation(false)]
    pub fn read_window(&self, start: usize, len: usize) -> (out: Vec<i64>)
        requires
            inv(self@),
            start < self@.ring.len(),
            len <= self@.ring.len(),
        ensures
            out@.len() == len,
            forall|i: int|
                0 <= i < len ==> #[trigger] out@[i] == self@.ring[(start + i) % (
                self@.ring.len() as int)],
    {
        let c = self.ring.len();
        let mut out: Vec<i64> = Vec::new();
        let mut i: usize = 0;
        while i < len
            invariant
                i <= len,
                len <= c,
                start < c,
                c == self@.ring.len(),
                out@.len() == i,
                forall|j: int|
                    0 <= j < i ==> #[trigger] out@[j] == self@.ring[(start + j) % (c as int)],
            decreases len - i,
        {
            let idx = (start + i) % c;
            out.push(self.ring[idx]);
            i = i + 1;
        }
        out
    }

    /// Adds a grain to the pool if it is well formed and the pool has
    /// room; reports whether it was taken.
    #[verifier::loop_isolation(false)]
    pub fn push_grain(&mut self, g: Grain) -> (ok: bool)
        requires
            inv(old(self)@),
        ensures
            inv(final(self)@),
            ok == (old(self)@.grains.len() < MAX_GRAINS && grain_ok(g@)),
            ok ==> final(self)@ == (GranularV {
                grains: old(self)@.grains.push(g@),
                ..old(self)@
            }),
            !ok ==> final(self)@ == old(self)@,
    {
        if self.grains.len() >= MAX_GRAINS {
            return false;
        }
        if g.pos > g.buf.len() {
            return false;
        }
        let mut i: usize = 0;
        let n = g.buf.len();
        while i < n
            invariant
                i <= n,
                n == g@.buf.len(),
                forall|j: int| 0 <= j < i ==> -MONO_LIMIT <= #[trigger] g@.buf[j] <= MONO_LIMIT,
            decreases n - i,
        {
            let v = g.buf[i];
            if v < -MONO_LIMIT || v > MONO_LIMIT {
                return false;
            }
            i = i + 1;
        }
        let ghost pre = self.grains@;
        self.grains.push(g);
        proof {
            assert(grains_view(self.grains@) =~= grains_view(pre).push(g@));
        }
        true
    }

    /// How many grains are live.
    pub fn grain_count(&self) -> (n: usize)
        ensures
            n == self@.grains.len(),
    {
        self.grains.len()
    }

    /// The capacity of the history buffer, in samples.
    pub fn ring_len(&self) -> (n: usize)
        ensures
            n == self@.ring.len(),
    {
        self.ring.len()
    }

    /// One history sample, or zero when the index is out of range.
    pub fn ring_at(&self, i: usize) -> (v: i64)
        ensures
            v == if i < self@.ring.len() {
                self@.ring[i as int]
            } else {
                0i64
            },
    {
        if i < self.ring.len() {
            self.ring[i]
        } else {
            0
        }
    }

    /// The configured sample rate, zero before initialization.
    pub fn sample_rate(&self) -> (r: u32)
        ensures
            r == self@.sr,
    {
        self.sr
    }
}

/// The sample sequences behind a block of channel buffers.
pub open spec fn views(channels: Seq<Vec<i64>>) -> Seq<Seq<i64>> {
    channels.map_values(|v: Vec<i64>| v@)
}

/// The downmixed (summed) value of frame `i` over the first `c_count`
/// channels of a block.
pub open spec fn frame_mono(input: Seq<Seq<i64>>, i: int, c_count: int) -> int
    decreases c_count,
{
    if c_count <= 0 {
        0
    } else {
        frame_mono(input, i, c_count - 1) + input[c_count - 1][i]
    }
}

/// The downmixed value of frame `i` over all channels.
pub open spec fn block_mono(input: Seq<Seq<i64>>, i: int) -> int {
    frame_mono(input, i, input.len() as int)
}

/// The history ring after the first `i` frames of a block have been
/// recorded: each frame's downmix lands at the write cursor, which wraps
/// around the capacity.
pub open spec fn ring_after(ring0: Seq<i64>, wr0: int, input: Seq<Seq<i64>>, i: int) -> Seq<i64>
    decreases i,
{
    if i <= 0 {
        ring0
    } else {
        ring_after(ring0, wr0, input, i - 1).update(
            (wr0 + i - 1) % (ring0.len() as int),
            block_mono(input, i - 1) as i64,
        )
    }
}

/// The dry/wet blend of one output sample: `dry * (1 - mix) + wet * mix`
/// in Q16, truncated toward zero.
pub open spec fn blend(dry: int, wet: int, mix: int) -> int {
    div_q(dry * (65536 - mix) + wet * mix)
}

/// Output sample of channel `c`, frame `i`: the dry input blended with
/// the wet sum of the grain set `g1` that was live during the block.
pub open spec fn out_sample(input: Seq<Seq<i64>>, g1: Seq<GrainV>, mix: int, c: int, i: int) -> int {
    blend(input[c][i] as int, wet_sum(g1, input.len() as int, c, i), mix)
}

fn blend_exec(dry: i64, wet: i64, mix: i64) -> (r: i64)
    requires
        -MONO_LIMIT <= dry <= MONO_LIMIT,
        -WET_LIMIT <= wet <= WET_LIMIT,
        0 <= mix <= 65536,
    ensures
        r == blend(dry as int, wet as int, mix as int),
{
    proof {
        assert(-0x100_0000_0000_0000 <= dry * (65536 - mix) <= 0x100_0000_0000_0000)
            by (nonlinear_arith)
            requires
                -0x100_0000_0000 <= dry <= 0x100_0000_0000,
                0 <= 65536 - mix <= 65536,
        ;
        assert(-0x1900_0000_0000_0000 <= wet * mix <= 0x1900_0000_0000_0000) by (nonlinear_arith)
            requires
                -0x1900_0000_0000 <= wet <= 0x1900_0000_0000,
                0 <= mix <= 65536,
        ;
    }
    let a: i64 = dry * (65536 - mix);
    let b: i64 = wet * mix;
    let num: i64 = a + b;
    let mag: u64 = if num >= 0 {
        num as u64
    } else {
        (-num) as u64
    };
    let q: u64 = mag / 65536;
    proof {
        vstd::arithmetic::div_mod::lemma_div_nonincreasing(mag as int, 65536);
        vstd::arithmetic::div_mod::lemma_div_pos_is_pos(mag as int, 65536);
    }
    let qi: i64 = q as i64;
    if num >= 0 {
        qi
    } else {
        -qi
    }
}

impl Granular {
    /// The deterministic per-sample half of a block: downmixes every
    /// frame into the ring, blends dry input with the wet sum of the
    /// live grains, and advances every cursor by the block length.
    #[verifier::loop_isolation(false)]
    #[verifier::rlimit(60)]
    fn process_block(&mut self, channels: &mut Vec<Vec<i64>>, mix: i64)
        requires
            inv(old(self)@),
            initialized(old(self)@),
            0 <= mix <= 65536,
            1 <= old(channels)@.len() <= MAX_CHANNELS,
            forall|c: int|
                0 <= c < old(channels)@.len() ==> (#[trigger] old(channels)@[c]@.len())
                    == old(channels)@[0]@.len(),
            forall|c: int, i: int|
                0 <= c < old(channels)@.len() && 0 <= i < old(channels)@[c]@.len()
                    ==> -SAMPLE_LIMIT <= #[trigger] old(channels)@[c]@[i] <= SAMPLE_LIMIT,
        ensures
            inv(final(self)@),
            final(self)@.sr == old(self)@.sr,
            final(self)@.params == old(self)@.params,
            final(self)@.ring == ring_after(
                old(self)@.ring,
                old(self)@.wr,
                views(old(channels)@),
                old(channels)@[0]@.len() as int,
            ),
            final(self)@.wr == (old(self)@.wr + old(channels)@[0]@.len()) % (
            old(self)@.ring.len() as int),
            final(self)@.grains == advance_grains(
                old(self)@.grains,
                old(channels)@[0]@.len() as int,
            ),
            final(channels)@.len() == old(channels)@.len(),
            forall|c: int|
                0 <= c < old(channels)@.len() ==> (#[trigger] final(channels)@[c]@.len())
                    == old(channels)@[c]@.len(),
            forall|c: int, i: int|
                0 <= c < old(channels)@.len() && 0 <= i < old(channels)@[c]@.len()
                    ==> #[trigger] final(channels)@[c]@[i] as int == out_sample(
                    views(old(channels)@),
                    old(self)@.grains,
                    mix as int,
                    c,
                    i,
                ),
    {
        let ghost st0 = self@;
        let ghost input0 = views(old(channels)@);
        let n_ch = channels.len();
        let frames = channels[0].len();
        let c_len = self.ring.len();
        proof {
            assert(input0.len() == n_ch as int);
            assert(forall|c: int| 0 <= c < n_ch ==> input0[c] == old(channels)@[c]@);
        }
        proof {
            vstd::arithmetic::div_mod::lemma_small_mod(st0.wr as nat, c_len as nat);
        }
        // Record every frame's downmix into the ring.
        let mut i: usize = 0;
        while i < frames
            invariant
                i <= frames,
                channels@ == old(channels)@,
                self@.ring.len() == c_len,
                self@.ring == ring_after(st0.ring, st0.wr, input0, i as int),
                self@.wr == (st0.wr + i) % (c_len as int),
                0 <= self@.wr < c_len,
                self@.grains == st0.grains,
                self@.params == st0.params,
                self@.sr == st0.sr,
                forall|j: int|
                    0 <= j < c_len ==> -MONO_LIMIT <= #[trigger] self@.ring[j] <= MONO_LIMIT,
            decreases frames - i,
        {
            let mut mono: i64 = 0;
            let mut c: usize = 0;
            while c < n_ch
                invariant
                    c <= n_ch,
                    i < frames,
                    mono == frame_mono(input0, i as int, c as int),
                    -(c as int) * SAMPLE_LIMIT <= mono as int <= (c as int) * SAMPLE_LIMIT,
                decreases n_ch - c,
            {
                let v = channels[c][i];
                mono = mono + v;
                c = c + 1;
            }
            let w = self.wr;
            self.ring[w] = mono;
            self.wr = if w + 1 == c_len {
                0
            } else {
                w + 1
            };
            proof {
                lemma_mod_step(st0.wr + i, c_len as int);
                assert(mono == block_mono(input0, i as int));
                assert(self@.ring =~= ring_after(st0.ring, st0.wr, input0, i as int + 1));
            }
            i = i + 1;
        }
        // Blend dry input with the wet grain sum, channel by channel.
        let ghost ring_a = self@.ring;
        let ghost wr_a = self@.wr;
        let mut c: usize = 0;
        while c < n_ch
            invariant
                c <= n_ch,
                self@.ring == ring_a,
                self@.wr == wr_a,
                self@.grains == st0.grains,
                self@.params == st0.params,
                self@.sr == st0.sr,
                channels@.len() == n_ch,
                forall|cc: int|
                    0 <= cc < n_ch ==> (#[trigger] channels@[cc]@.len()) == frames,
                forall|cc: int| c <= cc < n_ch ==> (#[trigger] channels@[cc]@) == input0[cc],
                forall|cc: int, j: int|
                    0 <= cc < c && 0 <= j < frames ==> #[trigger] channels@[cc]@[j] as int
                        == out_sample(input0, st0.grains, mix as int, cc, j),
            decreases n_ch - c,
        {
            let mut i2: usize = 0;
            while i2 < frames
                invariant
                    i2 <= frames,
                    c < n_ch,
                    self@.ring == ring_a,
                    self@.wr == wr_a,
                    self@.grains == st0.grains,
                    self@.params == st0.params,
                    self@.sr == st0.sr,
                    channels@.len() == n_ch,
                    forall|cc: int|
                        0 <= cc < n_ch ==> (#[trigger] channels@[cc]@.len()) == frames,
                    forall|cc: int| c < cc < n_ch ==> (#[trigger] channels@[cc]@) == input0[cc],
                    forall|cc: int, j: int|
                        0 <= cc < c && 0 <= j < frames ==> #[trigger] channels@[cc]@[j] as int
                            == out_sample(input0, st0.grains, mix as int, cc, j),
                    forall|j: int|
                        0 <= j < i2 ==> #[trigger] channels@[c as int]@[j] as int == out_sample(
                            input0,
                            st0.grains,
                            mix as int,
                            c as int,
                            j,
                        ),
                    forall|j: int|
                        i2 <= j < frames ==> #[trigger] channels@[c as int]@[j] == input0[c as int][j],
                decreases frames - i2,
            {
                let dry = channels[c][i2];
                let gn = self.grains.len();
                let mut wet: i64 = 0;
                let mut k: usize = 0;
                while k < gn
                    invariant
                        k <= gn,
                        gn == st0.grains.len(),
                        c < n_ch,
                        i2 < frames,
                        wet as int == wet_sum(
                            st0.grains.take(k as int),
                            n_ch as int,
                            c as int,
                            i2 as int,
                        ),
                        -(k as int) * MONO_LIMIT <= wet as int <= (k as int) * MONO_LIMIT,
                    decreases gn - k,
                {
                    let ghost gv = st0.grains[k as int];
                    proof {
                        assert(grain_ok(gv));
                    }
                    let g = &self.grains[k];
                    proof {
                        assert(g@ == gv);
                    }
                    if g.pos < g.buf.len() {
                        let rem = g.buf.len() - g.pos;
                        if i2 < rem {
                            if g.ch % n_ch == c {
                                let v = g.buf[g.pos + i2];
                                wet = wet + v;
                            }
                        }
                    }
                    proof {
                        assert(st0.grains.take(k as int + 1).drop_last() =~= st0.grains.take(
                            k as int,
                        ));
                        assert(st0.grains.take(k as int + 1).last() == gv);
                        assert(wet as int == wet_sum(
                            st0.grains.take(k as int),
                            n_ch as int,
                            c as int,
                            i2 as int,
                        ) + grain_contrib(gv, n_ch as int, c as int, i2 as int));
                    }
                    k = k + 1;
                }
                proof {
                    assert(st0.grains.take(gn as int) =~= st0.grains);
                }
                let out = blend_exec(dry, wet, mix);
                channels[c][i2] = out;
                i2 = i2 + 1;
            }
            c = c + 1;
        }
        // Advance every grain cursor by the block length, saturating at
        // the buffer end.
        let ghost g_b = self@.grains;
        let gn = self.grains.len();
        let mut k: usize = 0;
        while k < gn
            invariant
                k <= gn,
                gn == g_b.len(),
                self@.ring == ring_a,
                self@.wr == wr_a,
                self@.params == st0.params,
                self@.sr == st0.sr,
                self@.grains.len() == gn,
                forall|kk: int|
                    0 <= kk < k ==> (#[trigger] self@.grains[kk]) == advance_grain(
                        g_b[kk],
                        frames as int,
                    ),
                forall|kk: int| k <= kk < gn ==> (#[trigger] self@.grains[kk]) == g_b[kk],
            decreases gn - k,
        {
            let ghost pre_c = self.grains@;
            let mut g = self.grains.remove(k);
            let ghost gv_old = g@;
            proof {
                assert(gv_old == grains_view(pre_c)[k as int]);
                assert(gv_old == g_b[k as int]);
                assert(grain_ok(gv_old));
            }
            let len_k = g.buf.len();
            let pos_k = g.pos;
            if pos_k < len_k {
                let rem = len_k - pos_k;
                if frames < rem {
                    g.pos = pos_k + frames;
                } else {
                    g.pos = len_k;
                }
            }
            let ghost gv_new = g@;
            proof {
                assert(gv_new.buf == gv_old.buf && gv_new.ch == gv_old.ch);
                assert(gv_new == advance_grain(g_b[k as int], frames as int));
            }
            self.grains.insert(k, g);
            proof {
                assert(self.grains@ =~= pre_c.update(k as int, g));
                assert(self@.grains =~= grains_view(pre_c).update(k as int, gv_new));
                assert(self@.grains[k as int] == advance_grain(g_b[k as int], frames as int));
            }
            k = k + 1;
        }
        proof {
            assert(self@.grains =~= advance_grains(g_b, frames as int));
            assert(forall|kk: int|
                0 <= kk < self@.grains.len() ==> grain_ok(#[trigger] self@.grains[kk])) by {
                assert(forall|kk: int|
                    0 <= kk < gn ==> self@.grains[kk] == advance_grain(g_b[kk], frames as int));
                assert(forall|kk: int| 0 <= kk < gn ==> grain_ok(#[trigger] g_b[kk]));
            }
        }
    }
}

/// `len` history samples starting at `start`, wrapping at the capacity.
pub open spec fn window_of(ring: Seq<i64>, start: int, len: int) -> Seq<i64> {
    Seq::new(len as nat, |i: int| ring[(start + i) % (ring.len() as int)])
}

/// The grain the scheduler builds from a draw: the history window at
/// `(start, len)`, Tukey-tapered, cursor at zero, routed to channel `ch`.
pub open spec fn windowed_grain(ring: Seq<i64>, start: int, len: int, ch: int) -> GrainV {
    GrainV {
        buf: Seq::new(
            len as nat,
            |i: int|
                mul_q(
                    window_of(ring, start, len)[i] as int,
                    tukey_weight(len, TUKEY_ALPHA_Q as int, i),
                ) as i64,
        ),
        pos: 0,
        ch: ch,
    }
}

/// The grain pool after the scheduler's decision `sp`: unchanged, or one
/// windowed grain appended.
pub open spec fn grains_after_spawn(pre: GranularV, sp: Option<(int, int, int)>) -> Seq<GrainV> {
    match sp {
        Option::None => pre.grains,
        Option::Some((len, start, ch)) => pre.grains.push(
            windowed_grain(pre.ring, start, len, ch),
        ),
    }
}

/// Which scheduler decisions are possible: skipping always is; spawning
/// `(len, start, ch)` only with room in the pool, a length within the
/// commanded bounds that the history can cover, a start that keeps the
/// window ahead of the capacity, and an existing channel.
pub open spec fn spawn_explained(
    pre: GranularV,
    sp: Option<(int, int, int)>,
    n_ch: int,
    min_len: int,
    max_len: int,
) -> bool {
    match sp {
        Option::None => true,
        Option::Some((len, start, ch)) => {
            &&& pre.grains.len() < MAX_GRAINS
            &&& min_len <= len <= max_len
            &&& max_len < pre.ring.len()
            &&& 0 <= start < pre.ring.len() - len
            &&& 0 <= ch < n_ch
        },
    }
}

impl Granular {
    /// The stochastic half of a block: with probability `density`, and
    /// only if the pool has room and the history covers `max_len`, draw
    /// a grain length in `[min_len, max_len]`, a start anywhere the
    /// window fits, and a destination channel, then window the snippet
    /// and add it to the pool. Every outcome is one `spawn_explained`
    /// decision.
    #[verifier::loop_isolation(false)]
    fn maybe_spawn(&mut self, density: i64, min_len: usize, max_len: usize, n_ch: usize)
        requires
            inv(old(self)@),
            initialized(old(self)@),
            0 <= density <= 65536,
            1 <= min_len <= max_len,
            max_len <= 0x100_0000,
            1 <= n_ch,
        ensures
            inv(final(self)@),
            final(self)@.ring == old(self)@.ring,
            final(self)@.wr == old(self)@.wr,
            final(self)@.params == old(self)@.params,
            final(self)@.sr == old(self)@.sr,
            density == 0 ==> final(self)@.grains == old(self)@.grains,
            exists|sp: Option<(int, int, int)>|
                #[trigger] spawn_explained(
                    old(self)@,
                    sp,
                    n_ch as int,
                    min_len as int,
                    max_len as int,
                ) && final(self)@.grains == grains_after_spawn(old(self)@, sp),
    {
        let ghost st0 = self@;
        let ghost none = Option::<(int, int, int)>::None;
        proof {
            assert(spawn_explained(st0, none, n_ch as int, min_len as int, max_len as int));
        }
        if self.grains.len() >= MAX_GRAINS {
            return ;
        }
        let c_len = self.ring.len();
        if c_len <= max_len {
            return ;
        }
        let mut r = crate::rng::new_rng();
        let roll = crate::rng::draw_below(&mut r, 65536);
        if (roll as u64) < (density as u64) {
            let span = max_len - min_len + 1;
            let len = min_len + crate::rng::draw_below(&mut r, span);
            let start = crate::rng::draw_below(&mut r, c_len - len);
            let mut data = self.read_window(start, len);
            proof {
                assert(forall|i: int|
                    0 <= i < data@.len() ==> -MONO_LIMIT <= #[trigger] data@[i] <= MONO_LIMIT);
            }
            apply_tukey(&mut data, TUKEY_ALPHA_Q);
            let ch = crate::rng::draw_below(&mut r, n_ch);
            let grain = Grain { buf: data, pos: 0, ch };
            let ghost gv = grain@;
            let ghost pre_g = self.grains@;
            self.grains.push(grain);
            proof {
                let sp = Option::Some((len as int, start as int, ch as int));
                let wg = windowed_grain(st0.ring, start as int, len as int, ch as int);
                assert(gv.buf =~= wg.buf);
                assert(gv == wg);
                assert(grains_view(self.grains@) =~= grains_view(pre_g).push(gv));
                assert(spawn_explained(st0, sp, n_ch as int, min_len as int, max_len as int));
                assert(self@.grains == grains_after_spawn(st0, sp));
                assert(grain_ok(gv));
            }
        }
    }

    /// Removes every grain whose cursor has consumed its buffer; the
    /// survivors keep their order.
    #[verifier::loop_isolation(false)]
    #[verifier::rlimit(80)]
    fn prune(&mut self)
        requires
            inv(old(self)@),
        ensures
            inv(final(self)@),
            final(self)@ == (GranularV { grains: prune_grains(old(self)@.grains), ..old(self)@ }),
    {
        let ghost g0 = self@.grains;
        let ghost pred = |g: GrainV| g.pos < g.buf.len();
        let n = self.grains.len();
        let mut j: usize = 0;
        let mut i: usize = 0;
        while j < n
            invariant
                j <= n,
                i <= j,
                n == g0.len(),
                self@.ring == old(self)@.ring,
                self@.wr == old(self)@.wr,
                self@.params == old(self)@.params,
                self@.sr == old(self)@.sr,
                i == g0.take(j as int).filter(pred).len(),
                self@.grains =~= g0.take(j as int).filter(pred) + g0.skip(j as int),
                forall|kk: int|
                    0 <= kk < self@.grains.len() ==> grain_ok(#[trigger] self@.grains[kk]),
                self@.grains.len() <= g0.len(),
            decreases n - j,
        {
            proof {
                assert(g0.skip(j as int)[0] == g0[j as int]);
                assert(self@.grains[i as int] == g0[j as int]);
                assert(g0.take(j as int + 1).drop_last() =~= g0.take(j as int));
                reveal(Seq::filter);
            }
            let ghost pre = self.grains@;
            let done = self.grains[i].done();
            if done {
                self.grains.remove(i);
                proof {
                    assert(grains_view(self.grains@) =~= grains_view(pre).remove(i as int));
                    assert(!pred(g0[j as int]));
                    assert(g0.take(j as int + 1).filter(pred) == g0.take(j as int).filter(pred));
                    assert(grains_view(pre).remove(i as int) =~= g0.take(j as int + 1).filter(pred)
                        + g0.skip(j as int + 1));
                }
            } else {
                proof {
                    assert(pred(g0[j as int]));
                    assert(g0.take(j as int + 1).filter(pred) =~= g0.take(j as int).filter(
                        pred,
                    ).push(g0[j as int]));
                    assert(self@.grains =~= g0.take(j as int + 1).filter(pred) + g0.skip(
                        j as int + 1,
                    ));
                }
                i = i + 1;
            }
            j = j + 1;
        }
        proof {
            assert(g0.take(n as int) =~= g0);
            assert(g0.skip(n as int) =~= Seq::<GrainV>::empty());
            assert(self@.grains =~= prune_grains(g0));
        }
    }
}

/// Milliseconds (Q16) to a sample count at rate `sr`, truncating.
pub open spec fn ms_to_len(ms: int, sr: int) -> int {
    (ms * sr) / 65536000
}

/// The smallest grain length a block may draw: the commanded minimum,
/// clamped to at least one millisecond, converted to samples, at least 1.
pub open spec fn derived_min_len(p: ParamsV, sr: int) -> int {
    let min_ms = if p.min_ms.current < 65536 {
        65536
    } else {
        p.min_ms.current
    };
    let l = ms_to_len(min_ms, sr);
    if l < 1 {
        1
    } else {
        l
    }
}

/// The largest grain length a block may draw: the commanded maximum,
/// clamped to at least the minimum, converted to samples.
pub open spec fn derived_max_len(p: ParamsV, sr: int) -> int {
    let min_ms = if p.min_ms.current < 65536 {
        65536
    } else {
        p.min_ms.current
    };
    let max_ms = if p.max_ms.current < min_ms {
        min_ms
    } else {
        p.max_ms.current
    };
    let l = ms_to_len(max_ms, sr);
    let lmin = derived_min_len(p, sr);
    if l < lmin {
        lmin
    } else {
        l
    }
}

/// Everything one `process` call does, for some scheduler decision `sp`:
/// the controls take one smoothing step; the downmix of every input
/// frame is recorded in the ring; every output sample is the dry input
/// blended with the wet sum of the post-decision grain pool; and the
/// pool ends advanced by the block length and pruned of finished grains.
pub open spec fn process_post(
    pre: GranularV,
    post: GranularV,
    input: Seq<Seq<i64>>,
    output: Seq<Seq<i64>>,
) -> bool {
    let p1 = params_next(pre.params);
    let frames = input[0].len() as int;
    let n_ch = input.len() as int;
    let mix = crate::fixed::clamp01_q(p1.mix.current);
    &&& post.sr == pre.sr
    &&& post.params == p1
    &&& output.len() == n_ch
    &&& forall|c: int| 0 <= c < n_ch ==> (#[trigger] output[c].len()) == input[c].len()
    &&& exists|sp: Option<(int, int, int)>|
        {
            &&& #[trigger] spawn_explained(
                pre,
                sp,
                n_ch,
                derived_min_len(p1, pre.sr),
                derived_max_len(p1, pre.sr),
            )
            &&& post.ring == ring_after(pre.ring, pre.wr, input, frames)
            &&& post.wr == (pre.wr + frames) % (pre.ring.len() as int)
            &&& post.grains == prune_grains(
                advance_grains(grains_after_spawn(pre, sp), frames),
            )
            &&& forall|c: int, i: int|
                0 <= c < n_ch && 0 <= i < input[c].len() ==> (#[trigger] output[c][i]) as int
                    == out_sample(input, grains_after_spawn(pre, sp), mix, c, i)
        }
}

impl Granular {
    /// Processes one block in place: reads each control once, possibly
    /// spawns one grain from the recorded history, downmixes and records
    /// the input, replaces it with the dry/wet blend, and retires
    /// finished grains.
    pub fn process(&mut self, channels: &mut Vec<Vec<i64>>)
        requires
            inv(old(self)@),
            initialized(old(self)@),
            1 <= old(channels)@.len() <= MAX_CHANNELS,
            forall|c: int|
                0 <= c < old(channels)@.len() ==> (#[trigger] old(channels)@[c]@.len())
                    == old(channels)@[0]@.len(),
            forall|c: int, i: int|
                0 <= c < old(channels)@.len() && 0 <= i < old(channels)@[c]@.len()
                    ==> -SAMPLE_LIMIT <= #[trigger] old(channels)@[c]@[i] <= SAMPLE_LIMIT,
        ensures
            inv(final(self)@),
            process_post(old(self)@, final(self)@, views(old(channels)@), views(final(channels)@)),
            crate::fixed::clamp01_q(params_next(old(self)@.params).density.current) == 0
                ==> final(self)@.grains == prune_grains(
                advance_grains(old(self)@.grains, old(channels)@[0]@.len() as int),
            ),
    {
        let ghost pre = self@;
        let n_ch = channels.len();

        // Read each control once for the whole block.
        let density_raw = self.params.density.next_value();
        let min_ms_raw = self.params.min_ms.next_value();
        let max_ms_raw = self.params.max_ms.next_value();
        let mix_raw = self.params.mix.next_value();
        proof {
            assert(self@.params == params_next(pre.params));
        }
        let density: i64 = if density_raw < 0 {
            0
        } else if density_raw > 65536 {
            65536
        } else {
            density_raw
        };
        let mix: i64 = if mix_raw < 0 {
            0
        } else if mix_raw > 65536 {
            65536
        } else {
            mix_raw
        };
        let min_ms: i64 = if min_ms_raw < 65536 {
            65536
        } else {
            min_ms_raw
        };
        let max_ms: i64 = if max_ms_raw < min_ms {
            min_ms
        } else {
            max_ms_raw
        };
        let sr = self.sr;
        proof {
            assert(min_ms * (sr as i64) <= 65536000 * 1000000) by (nonlinear_arith)
                requires
                    0 <= min_ms <= 65536000,
                    0 <= sr <= 1000000,
            ;
            assert(max_ms * (sr as i64) <= 65536000 * 1000000) by (nonlinear_arith)
                requires
                    0 <= max_ms <= 65536000,
                    0 <= sr <= 1000000,
            ;
            vstd::arithmetic::div_mod::lemma_multiply_divide_le(
                (min_ms * (sr as i64)) as int,
                65536000,
                1000000,
            );
            vstd::arithmetic::div_mod::lemma_multiply_divide_le(
                (max_ms * (sr as i64)) as int,
                65536000,
                1000000,
            );
            vstd::arithmetic::div_mod::lemma_div_pos_is_pos((min_ms * (sr as i64)) as int, 65536000);
            vstd::arithmetic::div_mod::lemma_div_pos_is_pos((max_ms * (sr as i64)) as int, 65536000);
        }
        let min_len_q: u64 = ((min_ms as u64) * (sr as u64)) / 65536000;
        let max_len_q: u64 = ((max_ms as u64) * (sr as u64)) / 65536000;
        let min_len: usize = if min_len_q < 1 {
            1
        } else {
            min_len_q as usize
        };
        let max_len: usize = if (max_len_q as usize) < min_len {
            min_len
        } else {
            max_len_q as usize
        };
        proof {
            assert(min_len as int == derived_min_len(params_next(pre.params), pre.sr));
            assert(max_len as int == derived_max_len(params_next(pre.params), pre.sr));
        }
        let ghost st_p = self@;
        self.maybe_spawn(density, min_len, max_len, n_ch);
        let ghost st_s = self@;
        self.process_block(channels, mix);
        self.prune();
        proof {
            let p1 = params_next(pre.params);
            let input = views(old(channels)@);
            let output = views(channels@);
            let frames = input[0].len() as int;
            let sp = choose|sp: Option<(int, int, int)>|
                #[trigger] spawn_explained(
                    st_p,
                    sp,
                    n_ch as int,
                    min_len as int,
                    max_len as int,
                ) && st_s.grains == grains_after_spawn(st_p, sp);
            assert(st_p.grains == pre.grains && st_p.ring == pre.ring);
            assert(spawn_explained(pre, sp, n_ch as int, min_len as int, max_len as int)
                && st_s.grains == grains_after_spawn(pre, sp)) by {
                match sp {
                    Option::None => {
                    },
                    Option::Some((len, start, ch)) => {
                        assert(windowed_grain(st_p.ring, start, len, ch) == windowed_grain(
                            pre.ring,
                            start,
                            len,
                            ch,
                        ));
                    },
                }
            }
            assert(input.len() == old(channels)@.len());
            assert(forall|c: int| 0 <= c < input.len() ==> input[c] == old(channels)@[c]@);
            assert(output.len() == channels@.len());
            assert(forall|c: int| 0 <= c < output.len() ==> output[c] == channels@[c]@);
            assert(input[0] == old(channels)@[0]@);
            assert(frames == old(channels)@[0]@.len());
            assert(self@.params == p1);
            assert(self@.sr == pre.sr);
            assert(output.len() == input.len());
            assert(forall|c: int|
                0 <= c < input.len() ==> (#[trigger] output[c].len()) == input[c].len());
            assert(spawn_explained(
                pre,
                sp,
                input.len() as int,
                derived_min_len(p1, pre.sr),
                derived_max_len(p1, pre.sr),
            ));
            assert(self@.ring == ring_after(pre.ring, pre.wr, input, frames));
            assert(self@.wr == (pre.wr + frames) % (pre.ring.len() as int));
            assert(self@.grains == prune_grains(
                advance_grains(grains_after_spawn(pre, sp), frames),
            ));
            assert(forall|c: int, i: int|
                0 <= c < input.len() && 0 <= i < input[c].len() ==> (#[trigger] output[c][i]) as int
                    == out_sample(
                    input,
                    grains_after_spawn(pre, sp),
                    crate::fixed::clamp01_q(p1.mix.current),
                    c,
                    i,
                ));
            assert(process_post(pre, self@, input, output));
        }
    }

    /// `process` behind explicit checks: verifies that the engine is
    /// initialized and the block well formed (one to `MAX_CHANNELS`
    /// equally long channels of bounded samples) and reports `false`,
    /// touching nothing, where it is not.
    #[verifier::loop_isolation(false)]
    pub fn process_checked(&mut self, channels: &mut Vec<Vec<i64>>) -> (ok: bool)
        requires
            inv(old(self)@),
        ensures
            inv(final(self)@),
            ok == (initialized(old(self)@) && 1 <= old(channels)@.len() <= MAX_CHANNELS && (
            forall|c: int|
                0 <= c < old(channels)@.len() ==> (#[trigger] old(channels)@[c]@.len())
                    == old(channels)@[0]@.len()) && (forall|c: int, i: int|
                0 <= c < old(channels)@.len() && 0 <= i < old(channels)@[c]@.len()
                    ==> -SAMPLE_LIMIT <= #[trigger] old(channels)@[c]@[i] <= SAMPLE_LIMIT)),
            ok ==> process_post(
                old(self)@,
                final(self)@,
                views(old(channels)@),
                views(final(channels)@),
            ),
            !ok ==> final(self)@ == old(self)@ && final(channels)@ == old(channels)@,
    {
        if self.sr < 1 {
            return false;
        }
        let n_ch = channels.len();
        if n_ch < 1 || n_ch > MAX_CHANNELS {
            return false;
        }
        let frames = channels[0].len();
        let mut c: usize = 0;
        while c < n_ch
            invariant
                c <= n_ch,
                forall|cc: int| 0 <= cc < c ==> (#[trigger] channels@[cc]@.len()) == frames,
            decreases n_ch - c,
        {
            if channels[c].len() != frames {
                return false;
            }
            c = c + 1;
        }
        let mut c2: usize = 0;
        while c2 < n_ch
            invariant
                c2 <= n_ch,
                forall|cc: int, i: int|
                    0 <= cc < c2 && 0 <= i < channels@[cc]@.len() ==> -SAMPLE_LIMIT
                        <= #[trigger] channels@[cc]@[i] <= SAMPLE_LIMIT,
            decreases n_ch - c2,
        {
            let mut i: usize = 0;
            let row_len = channels[c2].len();
            while i < row_len
                invariant
                    i <= row_len,
                    c2 < n_ch,
                    row_len == channels@[c2 as int]@.len(),
                    forall|cc: int, ii: int|
                        0 <= cc < c2 && 0 <= ii < channels@[cc]@.len() ==> -SAMPLE_LIMIT
                            <= #[trigger] channels@[cc]@[ii] <= SAMPLE_LIMIT,
                    forall|ii: int|
                        0 <= ii < i ==> -SAMPLE_LIMIT <= #[trigger] channels@[c2 as int]@[ii]
                            <= SAMPLE_LIMIT,
                decreases row_len - i,
            {
                let v = channels[c2][i];
                if v < -SAMPLE_LIMIT || v > SAMPLE_LIMIT {
                    return false;
                }
                i = i + 1;
            }
            c2 = c2 + 1;
        }
        self.process(channels);
        true
    }
}

/// The live grain pool never exceeds `MAX_GRAINS`: the bound is part of
/// the engine invariant, which every operation preserves.
pub proof fn lemma_grain_count_bounded(v: GranularV)
    requires
        inv(v),
    ensures
        v.grains.len() <= MAX_GRAINS,
{
}

/// Whether any of the first `i` frames lands on ring slot `p`.
pub open spec fn slot_written(wr0: int, i: int, c: int, p: int) -> bool {
    exists|j: int| 0 <= j < i && #[trigger] ((wr0 + j) % c) == p
}

proof fn lemma_silent_frame_mono(input: Seq<Seq<i64>>, i: int, c_count: int)
    requires
        0 <= c_count <= input.len(),
        forall|c: int| 0 <= c < input.len() ==> (#[trigger] input[c].len()) == input[0].len(),
        forall|c: int, j: int|
            0 <= c < input.len() && 0 <= j < input[c].len() ==> #[trigger] input[c][j] == 0,
        0 <= i < input[0].len(),
    ensures
        frame_mono(input, i, c_count) == 0,
    decreases c_count,
{
    if c_count > 0 {
        lemma_silent_frame_mono(input, i, c_count - 1);
    }
}

proof fn lemma_ring_after_len(ring0: Seq<i64>, wr0: int, input: Seq<Seq<i64>>, i: int)
    requires
        ring0.len() >= 1,
    ensures
        ring_after(ring0, wr0, input, i).len() == ring0.len(),
    decreases i,
{
    if i > 0 {
        lemma_ring_after_len(ring0, wr0, input, i - 1);
        vstd::arithmetic::div_mod::lemma_mod_division_less_than_divisor(
            wr0 + i - 1,
            ring0.len() as int,
        );
    }
}

proof fn lemma_silent_ring_after(ring0: Seq<i64>, wr0: int, input: Seq<Seq<i64>>, i: int)
    requires
        ring0.len() >= 1,
        input.len() >= 1,
        forall|c: int| 0 <= c < input.len() ==> (#[trigger] input[c].len()) == input[0].len(),
        forall|c: int, j: int|
            0 <= c < input.len() && 0 <= j < input[c].len() ==> #[trigger] input[c][j] == 0,
        0 <= i <= input[0].len(),
    ensures
        forall|p: int|
            0 <= p < ring0.len() ==> #[trigger] ring_after(ring0, wr0, input, i)[p] == (
            if slot_written(wr0, i, ring0.len() as int, p) {
                0i64
            } else {
                ring0[p]
            }),
    decreases i,
{
    let c = ring0.len() as int;
    if i <= 0 {
        assert forall|p: int| 0 <= p < c implies !slot_written(wr0, i, c, p) by {
            if slot_written(wr0, i, c, p) {
                let j = choose|j: int| 0 <= j < i && #[trigger] ((wr0 + j) % c) == p;
                assert(false);
            }
        }
    } else {
        lemma_silent_ring_after(ring0, wr0, input, i - 1);
        lemma_silent_frame_mono(input, i - 1, input.len() as int);
        lemma_ring_after_len(ring0, wr0, input, i - 1);
        lemma_ring_after_len(ring0, wr0, input, i);
        let w = (wr0 + i - 1) % c;
        vstd::arithmetic::div_mod::lemma_mod_division_less_than_divisor(wr0 + i - 1, c);
        let prev = ring_after(ring0, wr0, input, i - 1);
        let cur = ring_after(ring0, wr0, input, i);
        assert(cur == prev.update(w, block_mono(input, i - 1) as i64));
        assert forall|p: int| 0 <= p < c implies cur[p] == (if slot_written(wr0, i, c, p) {
            0i64
        } else {
            ring0[p]
        }) by {
            if p == w {
                assert(slot_written(wr0, i, c, p)) by {
                    assert(0 <= i - 1 < i && (wr0 + (i - 1)) % c == p);
                }
                assert(cur[p] == 0i64);
            } else {
                assert(cur[p] == prev[p]);
                if slot_written(wr0, i, c, p) {
                    let j = choose|j: int| 0 <= j < i && #[trigger] ((wr0 + j) % c) == p;
                    assert(j != i - 1);
                    assert(slot_written(wr0, i - 1, c, p)) by {
                        assert(0 <= j < i - 1 && (wr0 + j) % c == p);
                    }
                } else {
                    if slot_written(wr0, i - 1, c, p) {
                        let j = choose|j: int| 0 <= j < i - 1 && #[trigger] ((wr0 + j) % c) == p;
                        assert(0 <= j < i && (wr0 + j) % c == p);
                        assert(false);
                    }
                }
            }
        }
    }
}

/// Silent input overwrites the whole history: once at least one full
/// ring capacity of all-zero frames has been recorded, every slot of
/// the ring holds zero, whatever it held before.
pub proof fn lemma_silence_overwrites_history(
    ring0: Seq<i64>,
    wr0: int,
    input: Seq<Seq<i64>>,
    i: int,
)
    requires
        ring0.len() >= 1,
        0 <= wr0 < ring0.len(),
        input.len() >= 1,
        forall|c: int| 0 <= c < input.len() ==> (#[trigger] input[c].len()) == input[0].len(),
        forall|c: int, j: int|
            0 <= c < input.len() && 0 <= j < input[c].len() ==> #[trigger] input[c][j] == 0,
        ring0.len() <= i <= input[0].len(),
    ensures
        ring_after(ring0, wr0, input, i) == Seq::new(ring0.len() as nat, |p: int| 0i64),
{
    let c = ring0.len() as int;
    lemma_silent_ring_after(ring0, wr0, input, i);
    lemma_ring_after_len(ring0, wr0, input, i);
    assert forall|p: int| 0 <= p < c implies slot_written(wr0, i, c, p) by {
        let j = (p - wr0) % c;
        vstd::arithmetic::div_mod::lemma_mod_division_less_than_divisor(p - wr0, c);
        assert((wr0 + j) % c == p) by {
            vstd::arithmetic::div_mod::lemma_add_mod_noop_right(wr0, p - wr0, c);
            vstd::arithmetic::div_mod::lemma_small_mod(p as nat, c as nat);
        }
        assert(0 <= j < i);
    }
    assert(ring_after(ring0, wr0, input, i) =~= Seq::new(ring0.len() as nat, |p: int| 0i64));
}

/// A grain windowed out of silent history replays silence.
pub proof fn lemma_grain_from_silent_history(ring: Seq<i64>, start: int, len: int, ch: int)
    requires
        ring.len() >= 1,
        0 <= start,
        0 <= len,
        forall|p: int| 0 <= p < ring.len() ==> #[trigger] ring[p] == 0,
    ensures
        forall|i: int| 0 <= i < len ==> #[trigger] windowed_grain(ring, start, len, ch).buf[i] == 0,
{
    let c = ring.len() as int;
    assert forall|i: int| 0 <= i < len implies #[trigger] windowed_grain(
        ring,
        start,
        len,
        ch,
    ).buf[i] == 0 by {
        vstd::arithmetic::div_mod::lemma_mod_division_less_than_divisor(start + i, c);
        assert(window_of(ring, start, len)[i] == 0);
        let w = tukey_weight(len, TUKEY_ALPHA_Q as int, i);
        assert(mul_q(0, w) == 0) by {
            assert(0int * w == 0);
            vstd::arithmetic::div_mod::lemma_div_of0(65536);
        }
    }
}

/// A reset followed by a silent block stays silent: with an empty pool
/// and a zeroed history, whatever grain the scheduler decides to spawn
/// replays silence, so every output sample of an all-zero input block
/// is zero.
pub proof fn lemma_silence_after_reset(
    pre: GranularV,
    post: GranularV,
    input: Seq<Seq<i64>>,
    output: Seq<Seq<i64>>,
)
    requires
        pre.grains.len() == 0,
        pre.ring.len() >= 1,
        forall|p: int| 0 <= p < pre.ring.len() ==> #[trigger] pre.ring[p] == 0,
        input.len() >= 1,
        forall|c: int| 0 <= c < input.len() ==> (#[trigger] input[c].len()) == input[0].len(),
        forall|c: int, j: int|
            0 <= c < input.len() && 0 <= j < input[c].len() ==> #[trigger] input[c][j] == 0,
        process_post(pre, post, input, output),
    ensures
        forall|c: int, i: int|
            0 <= c < output.len() && 0 <= i < output[c].len() ==> #[trigger] output[c][i] == 0,
{
    let p1 = params_next(pre.params);
    let n_ch = input.len() as int;
    let mix = crate::fixed::clamp01_q(p1.mix.current);
    let min_len = derived_min_len(p1, pre.sr);
    let max_len = derived_max_len(p1, pre.sr);
    let sp = choose|sp: Option<(int, int, int)>|
        {
            &&& #[trigger] spawn_explained(pre, sp, n_ch, min_len, max_len)
            &&& post.ring == ring_after(pre.ring, pre.wr, input, input[0].len() as int)
            &&& post.wr == (pre.wr + input[0].len() as int) % (pre.ring.len() as int)
            &&& post.grains == prune_grains(
                advance_grains(grains_after_spawn(pre, sp), input[0].len() as int),
            )
            &&& forall|c: int, i: int|
                0 <= c < n_ch && 0 <= i < input[c].len() ==> (#[trigger] output[c][i]) as int
                    == out_sample(input, grains_after_spawn(pre, sp), mix, c, i)
        };
    let g1 = grains_after_spawn(pre, sp);
    assert(forall|k: int, i: int|
        0 <= k < g1.len() && 0 <= i < g1[k].buf.len() ==> #[trigger] g1[k].buf[i] == 0) by {
        match sp {
            Option::None => {
            },
            Option::Some((len, start, ch)) => {
                lemma_grain_from_silent_history(pre.ring, start, len, ch);
                assert(g1 == pre.grains.push(windowed_grain(pre.ring, start, len, ch)));
                assert(g1.len() == 1);
                assert(g1[0] == windowed_grain(pre.ring, start, len, ch));
            },
        }
    }
    assert(forall|k: int| 0 <= k < g1.len() ==> #[trigger] g1[k].pos >= 0) by {
        match sp {
            Option::None => {
            },
            Option::Some((len, start, ch)) => {
                assert(g1[0] == windowed_grain(pre.ring, start, len, ch));
            },
        }
    }
    assert forall|c: int, i: int|
        0 <= c < output.len() && 0 <= i < output[c].len() implies #[trigger] output[c][i]
        == 0i64 by {
        assert(output[c].len() == input[c].len());
        crate::grain::lemma_wet_sum_of_silence(g1, n_ch, c, i);
        assert(out_sample(input, g1, mix, c, i) == blend(0, 0, mix));
        assert(blend(0, 0, mix) == 0) by {
            assert(0int * (65536 - mix) == 0);
            assert(0int * mix == 0);
            vstd::arithmetic::div_mod::lemma_div_of0(65536);
        }
        assert(output[c][i] as int == 0);
    }
}

/// Stepping a cursor that wraps at `c`: the remainder either increases by
/// one or returns to zero.
proof fn lemma_mod_step(x: int, c: int)
    requires
        c > 0,
        x >= 0,
    ensures
        (x + 1) % c == if x % c + 1 == c {
            0
        } else {
            x % c + 1
        },
{
    let q = x / c;
    let r = x % c;
    vstd::arithmetic::div_mod::lemma_fundamental_div_mod(x, c);
    vstd::arithmetic::div_mod::lemma_mod_division_less_than_divisor(x, c);
    if r + 1 == c {
        assert(x + 1 == (q + 1) * c + 0) by (nonlinear_arith)
            requires
                x == q * c + r,
                r + 1 == c,
        ;
        vstd::arithmetic::div_mod::lemma_fundamental_div_mod_converse_mod(x + 1, c, q + 1, 0);
    } else {
        vstd::arithmetic::div_mod::lemma_fundamental_div_mod_converse_mod(x + 1, c, q, r + 1);
    }
}

} // verus!
