//! Signal generators.
//!
//! Generators are sources: they fill buffers with successive samples of
//! a potentially infinite signal, carrying their phase between calls.
//! The unit amplitude of the rational generators (sawtooth, square) is
//! `SCALE`; the impulse and step write plain ones and zeros, as befits
//! test signals.  A sinusoid plays a caller-supplied one-period table,
//! since its sample values are not rational.

use vstd::prelude::*;
use crate::SCALE;
use crate::fixed::qdiv;
use crate::node::SourceNode;
use crate::signal::Signal;

verus! {

/// `(pos + 1) % limit`, the phase counter advance.
pub(crate) fn wrap_inc(pos: usize, limit: usize) -> (r: usize)
    requires
        limit >= 1,
        pos < limit,
    ensures
        r as int == (pos + 1) % (limit as int),
{
    if pos + 1 >= limit {
        proof {
            vstd::arithmetic::div_mod::lemma_mod_self_0(limit as int);
        }
        0
    } else {
        proof {
            vstd::arithmetic::div_mod::lemma_small_mod((pos + 1) as nat, limit as nat);
        }
        pos + 1
    }
}

/// Advancing a phase one step at a time tracks modular addition.
pub(crate) proof fn lemma_wrap_step(start: int, i: int, limit: int)
    requires
        limit >= 1,
        i >= 0,
        start >= 0,
    ensures
        ((start + i) % limit + 1) % limit == (start + i + 1) % limit,
{
    vstd::arithmetic::div_mod::lemma_add_mod_noop(start + i, 1, limit);
    if limit == 1 {
        vstd::arithmetic::div_mod::lemma_mod_self_0(1);
    } else {
        vstd::arithmetic::div_mod::lemma_small_mod(1nat, limit as nat);
    }
}

/// Generate an impulse signal: a single one at the very first sample
/// this source ever writes, zero everywhere after it.
pub struct Impulse {
    impulse_send: bool,
}

impl Impulse {
    /// Whether the single impulse has already been written.
    pub closed spec fn sent_spec(&self) -> bool {
        self.impulse_send
    }

    pub fn new() -> (s: Impulse)
        ensures
            !s.sent_spec(),
    {
        Impulse { impulse_send: false }
    }
}

impl SourceNode<i64> for Impulse {
    open spec fn source_req(&self, buffer: Seq<i64>) -> bool {
        true
    }

    open spec fn source_ens(
        pre: Self,
        post: Self,
        buf_pre: Seq<i64>,
        buf_post: Seq<i64>,
        count: usize,
    ) -> bool {
        &&& count == buf_post.len()
        &&& post.sent_spec() == (pre.sent_spec() || buf_pre.len() > 0)
        &&& forall|i: int|
            0 <= i < buf_post.len()
                ==> buf_post[i] == if i == 0 && !pre.sent_spec() {
                    1i64
                } else {
                    0i64
                }
    }

    fn write_buffer(&mut self, buffer: &mut Vec<i64>) -> (count: usize) {
        let n: usize = buffer.len();
        let mut i: usize = 0;
        while i < n
            invariant
                i <= n,
                n == buffer@.len() == old(buffer)@.len(),
                self == old(self),
                forall|k: int| 0 <= k < i ==> buffer@[k] == 0i64,
            decreases n - i,
        {
            buffer.set(i, 0);
            i = i + 1;
        }
        if !self.impulse_send && n > 0 {
            buffer.set(0, 1);
            self.impulse_send = true;
        } else if n > 0 {
            self.impulse_send = true;
        }
        n
    }
}

/// Generate an impulse signal as a finite buffer: one at
/// `impulse_pos`, zero elsewhere.
pub fn impulse(length: usize, impulse_pos: usize, sample_rate: usize) -> (s: Signal)
    ensures
        s.data@.len() == length,
        s.sample_rate == sample_rate,
        forall|i: int|
            0 <= i < length ==> s.data@[i] == if i == impulse_pos {
                1i64
            } else {
                0i64
            },
{
    let mut data: Vec<i64> = Vec::new();
    let mut i: usize = 0;
    while i < length
        invariant
            i <= length,
            data@.len() == i as int,
            forall|k: int|
                0 <= k < i ==> data@[k] == if k == impulse_pos {
                    1i64
                } else {
                    0i64
                },
        decreases length - i,
    {
        if i == impulse_pos {
            data.push(1);
        } else {
            data.push(0);
        }
        i = i + 1;
    }
    Signal { data, sample_rate }
}

/// Step signal: zero for the first `step_pos` samples this source ever
/// writes, one from then on.
pub struct Step {
    step_pos: usize,
}

impl Step {
    /// How many zeros are still owed.
    pub closed spec fn pos_spec(&self) -> int {
        self.step_pos as int
    }

    pub fn new(step_pos: usize) -> (s: Step)
        ensures
            s.pos_spec() == step_pos,
    {
        Step { step_pos }
    }
}

impl SourceNode<i64> for Step {
    open spec fn source_req(&self, buffer: Seq<i64>) -> bool {
        true
    }

    open spec fn source_ens(
        pre: Self,
        post: Self,
        buf_pre: Seq<i64>,
        buf_post: Seq<i64>,
        count: usize,
    ) -> bool {
        &&& count == buf_post.len()
        &&& post.pos_spec() == if pre.pos_spec() <= buf_pre.len() {
            0int
        } else {
            pre.pos_spec() - buf_pre.len()
        }
        &&& forall|i: int|
            0 <= i < buf_post.len()
                ==> buf_post[i] == if i < pre.pos_spec() {
                    0i64
                } else {
                    1i64
                }
    }

    fn write_buffer(&mut self, buffer: &mut Vec<i64>) -> (count: usize) {
        let ghost pre_pos = self.step_pos as int;
        let n: usize = buffer.len();
        let mut i: usize = 0;
        while i < n
            invariant
                i <= n,
                n == buffer@.len() == old(buffer)@.len(),
                self.pos_spec() == if pre_pos <= i as int {
                    0int
                } else {
                    pre_pos - i as int
                },
                forall|k: int|
                    0 <= k < i ==> buffer@[k] == if k < pre_pos {
                        0i64
                    } else {
                        1i64
                    },
            decreases n - i,
        {
            if self.step_pos > 0 {
                buffer.set(i, 0);
                self.step_pos = self.step_pos - 1;
            } else {
                buffer.set(i, 1);
            }
            i = i + 1;
        }
        n
    }
}

/// Step signal as a finite buffer: zero before `step_pos`, one at and
/// after it.
pub fn step(length: usize, step_pos: usize, sample_rate: usize) -> (s: Signal)
    ensures
        s.data@.len() == length,
        s.sample_rate == sample_rate,
        forall|i: int|
            0 <= i < length ==> s.data@[i] == if i < step_pos {
                0i64
            } else {
                1i64
            },
{
    let mut data: Vec<i64> = Vec::new();
    let mut i: usize = 0;
    while i < length
        invariant
            i <= length,
            data@.len() == i as int,
            forall|k: int|
                0 <= k < i ==> data@[k] == if k < step_pos {
                    0i64
                } else {
                    1i64
                },
        decreases length - i,
    {
        if i < step_pos {
            data.push(0);
        } else {
            data.push(1);
        }
        i = i + 1;
    }
    Signal { data, sample_rate }
}

/// Sinusoidal signal, played from a one-period sample table (one entry
/// per sample of a whole period at the generator's sample rate).  The
/// phase wraps at the table length and survives across calls, so
/// consecutive buffers continue the waveform seamlessly.
pub struct Sinusoid {
    step_pos: usize,
    table: Vec<i64>,
}

impl Sinusoid {
    /// The one-period table.
    pub closed spec fn table_spec(&self) -> Seq<i64> {
        self.table@
    }

    /// The phase position inside the table.
    pub closed spec fn pos_spec(&self) -> int {
        self.step_pos as int
    }

    /// The phase always lies inside the table.
    pub open spec fn wf(&self) -> bool {
        self.table_spec().len() >= 1 && 0 <= self.pos_spec() < self.table_spec().len()
    }

    /// Create a new sinusoid generator over one period of samples.
    pub fn new(table: Vec<i64>) -> (s: Sinusoid)
        requires
            table@.len() >= 1,
        ensures
            s.wf(),
            s.table_spec() == table@,
            s.pos_spec() == 0,
    {
        Sinusoid { step_pos: 0, table }
    }
}

impl SourceNode<i64> for Sinusoid {
    open spec fn source_req(&self, buffer: Seq<i64>) -> bool {
        self.wf()
    }

    open spec fn source_ens(
        pre: Self,
        post: Self,
        buf_pre: Seq<i64>,
        buf_post: Seq<i64>,
        count: usize,
    ) -> bool {
        &&& count == buf_post.len()
        &&& post.table_spec() == pre.table_spec()
        &&& post.wf()
        &&& post.pos_spec() == (pre.pos_spec() + buf_pre.len()) % (pre.table_spec().len() as int)
        &&& forall|i: int|
            0 <= i < buf_post.len()
                ==> buf_post[i] == pre.table_spec()[(pre.pos_spec() + i) % (
                pre.table_spec().len() as int)]
    }

    fn write_buffer(&mut self, buffer: &mut Vec<i64>) -> (count: usize) {
        let ghost pre_pos = self.pos_spec();
        let ghost table = self.table_spec();
        let n: usize = buffer.len();
        let limit: usize = self.table.len();
        proof {
            vstd::arithmetic::div_mod::lemma_small_mod(pre_pos as nat, table.len() as nat);
        }
        let mut i: usize = 0;
        while i < n
            invariant
                i <= n,
                n == buffer@.len() == old(buffer)@.len(),
                self.wf(),
                self.table_spec() == table,
                limit == table.len(),
                pre_pos >= 0,
                self.pos_spec() == (pre_pos + i) % (table.len() as int),
                forall|k: int|
                    0 <= k < i ==> buffer@[k] == table[(pre_pos + k) % (table.len() as int)],
            decreases n - i,
        {
            buffer.set(i, self.table[self.step_pos]);
            self.step_pos = wrap_inc(self.step_pos, limit);
            proof {
                lemma_wrap_step(pre_pos, i as int, table.len() as int);
            }
            i = i + 1;
        }
        n
    }
}

/// The sawtooth sample at phase `pos`: a rising ramp from `-SCALE`
/// toward `SCALE`, repeating `freq` times per `rate` samples.
pub open spec fn sawtooth_sample(freq: int, rate: int, pos: int) -> int {
    qdiv(2 * SCALE * ((pos * freq) % rate), rate) - SCALE
}

/// Generate a sawtooth signal.
pub struct Sawtooth {
    step_pos: usize,
    freq: usize,
    sample_rate: usize,
}

impl Sawtooth {
    pub closed spec fn freq_spec(&self) -> int {
        self.freq as int
    }

    pub closed spec fn rate_spec(&self) -> int {
        self.sample_rate as int
    }

    pub closed spec fn pos_spec(&self) -> int {
        self.step_pos as int
    }

    pub open spec fn wf(&self) -> bool {
        &&& 1 <= self.rate_spec() <= 0x1_0000_0000
        &&& 0 <= self.freq_spec() <= 0x1_0000_0000
        &&& 0 <= self.pos_spec() < self.rate_spec()
    }

    /// Create a new sawtooth generator: `freq` cycles per second at
    /// `sample_rate` samples per second.
    pub fn new(freq: usize, sample_rate: usize) -> (s: Sawtooth)
        requires
            1 <= sample_rate <= 0x1_0000_0000,
            freq <= 0x1_0000_0000,
        ensures
            s.wf(),
            s.freq_spec() == freq,
            s.rate_spec() == sample_rate,
            s.pos_spec() == 0,
    {
        Sawtooth { step_pos: 0, freq, sample_rate }
    }
}

/// The sawtooth sample computed in machine arithmetic.
fn sawtooth_sample_exec(freq: usize, rate: usize, pos: usize) -> (v: i64)
    requires
        1 <= rate <= 0x1_0000_0000,
        freq <= 0x1_0000_0000,
        pos < rate,
    ensures
        v as int == sawtooth_sample(freq as int, rate as int, pos as int),
{
    proof {
        assert(0 <= pos as int * (freq as int) <= 0xffff_ffff * 0x1_0000_0000)
            by (nonlinear_arith)
            requires 0 <= pos as int <= 0xffff_ffff, 0 <= freq as int <= 0x1_0000_0000,
        ;
    }
    let phase: u64 = ((pos as u64) * (freq as u64)) % (rate as u64);
    proof {
        vstd::arithmetic::div_mod::lemma_mod_bound(pos as int * (freq as int), rate as int);
    }
    let scaled: i64 = crate::fixed::mul_div_q(2 * SCALE, phase as i64, rate as i64);
    proof {
        assert(0 <= 2 * (SCALE as int) * (phase as int)
            && 2 * (SCALE as int) * (phase as int) <= (rate as int) * (2 * (SCALE as int)))
            by (nonlinear_arith)
            requires 0 <= phase as int, (phase as int) < rate as int, SCALE > 0,
        ;
        crate::fixed::lemma_qdiv_between(
            2 * (SCALE as int) * (phase as int),
            rate as int,
            0,
            2 * (SCALE as int),
        );
        assert((2 * SCALE) as int * (phase as int) == 2 * (SCALE as int) * (phase as int));
    }
    scaled - SCALE
}

impl SourceNode<i64> for Sawtooth {
    open spec fn source_req(&self, buffer: Seq<i64>) -> bool {
        self.wf()
    }

    open spec fn source_ens(
        pre: Self,
        post: Self,
        buf_pre: Seq<i64>,
        buf_post: Seq<i64>,
        count: usize,
    ) -> bool {
        &&& count == buf_post.len()
        &&& post.wf()
        &&& post.freq_spec() == pre.freq_spec()
        &&& post.rate_spec() == pre.rate_spec()
        &&& post.pos_spec() == (pre.pos_spec() + buf_pre.len()) % pre.rate_spec()
        &&& forall|i: int|
            0 <= i < buf_post.len()
                ==> buf_post[i] == sawtooth_sample(
                pre.freq_spec(),
                pre.rate_spec(),
                (pre.pos_spec() + i) % pre.rate_spec(),
            )
    }

    fn write_buffer(&mut self, buffer: &mut Vec<i64>) -> (count: usize) {
        let ghost pre_pos = self.pos_spec();
        let ghost rate_g = self.rate_spec();
        proof {
            vstd::arithmetic::div_mod::lemma_small_mod(pre_pos as nat, rate_g as nat);
        }
        let n: usize = buffer.len();
        let mut i: usize = 0;
        while i < n
            invariant
                i <= n,
                n == buffer@.len() == old(buffer)@.len(),
                self.wf(),
                self.freq_spec() == old(self).freq_spec(),
                self.rate_spec() == rate_g,
                pre_pos >= 0,
                self.pos_spec() == (pre_pos + i) % rate_g,
                forall|k: int|
                    0 <= k < i ==> buffer@[k] == sawtooth_sample(
                        self.freq_spec(),
                        rate_g,
                        (pre_pos + k) % rate_g,
                    ),
            decreases n - i,
        {
            let v: i64 = sawtooth_sample_exec(self.freq, self.sample_rate, self.step_pos);
            buffer.set(i, v);
            self.step_pos = wrap_inc(self.step_pos, self.sample_rate);
            proof {
                lemma_wrap_step(pre_pos, i as int, rate_g);
            }
            i = i + 1;
        }
        n
    }
}

/// The square sample at phase `pos`: `SCALE` through the first half of
/// each cycle, `-SCALE` through the second.
pub open spec fn square_sample(freq: int, rate: int, pos: int) -> int {
    if 2 * ((pos * freq) % rate) < rate {
        SCALE as int
    } else {
        -SCALE as int
    }
}

/// Generate a square signal.
pub struct Square {
    step_pos: usize,
    freq: usize,
    sample_rate: usize,
}

impl Square {
    pub closed spec fn freq_spec(&self) -> int {
        self.freq as int
    }

    pub closed spec fn rate_spec(&self) -> int {
        self.sample_rate as int
    }

    pub closed spec fn pos_spec(&self) -> int {
        self.step_pos as int
    }

    pub open spec fn wf(&self) -> bool {
        &&& 1 <= self.rate_spec() <= 0x1_0000_0000
        &&& 0 <= self.freq_spec() <= 0x1_0000_0000
        &&& 0 <= self.pos_spec() < self.rate_spec()
    }

    /// Create a new square-wave generator: `freq` cycles per second at
    /// `sample_rate` samples per second.
    pub fn new(freq: usize, sample_rate: usize) -> (s: Square)
        requires
            1 <= sample_rate <= 0x1_0000_0000,
            freq <= 0x1_0000_0000,
        ensures
            s.wf(),
            s.freq_spec() == freq,
            s.rate_spec() == sample_rate,
            s.pos_spec() == 0,
    {
        Square { step_pos: 0, freq, sample_rate }
    }
}

impl SourceNode<i64> for Square {
    open spec fn source_req(&self, buffer: Seq<i64>) -> bool {
        self.wf()
    }

    open spec fn source_ens(
        pre: Self,
        post: Self,
        buf_pre: Seq<i64>,
        buf_post: Seq<i64>,
        count: usize,
    ) -> bool {
        &&& count == buf_post.len()
        &&& post.wf()
        &&& post.freq_spec() == pre.freq_spec()
        &&& post.rate_spec() == pre.rate_spec()
        &&& post.pos_spec() == (pre.pos_spec() + buf_pre.len()) % pre.rate_spec()
        &&& forall|i: int|
            0 <= i < buf_post.len()
                ==> buf_post[i] == square_sample(
                pre.freq_spec(),
                pre.rate_spec(),
                (pre.pos_spec() + i) % pre.rate_spec(),
            )
    }

    fn write_buffer(&mut self, buffer: &mut Vec<i64>) -> (count: usize) {
        let ghost pre_pos = self.pos_spec();
        let ghost rate_g = self.rate_spec();
        proof {
            vstd::arithmetic::div_mod::lemma_small_mod(pre_pos as nat, rate_g as nat);
        }
        let n: usize = buffer.len();
        let mut i: usize = 0;
        while i < n
            invariant
                i <= n,
                n == buffer@.len() == old(buffer)@.len(),
                self.wf(),
                self.freq_spec() == old(self).freq_spec(),
                self.rate_spec() == rate_g,
                pre_pos >= 0,
                self.pos_spec() == (pre_pos + i) % rate_g,
                forall|k: int|
                    0 <= k < i ==> buffer@[k] == square_sample(
                        self.freq_spec(),
                        rate_g,
                        (pre_pos + k) % rate_g,
                    ),
            decreases n - i,
        {
            proof {
                assert(0 <= self.pos_spec() * self.freq_spec()
                    <= 0xffff_ffff * 0x1_0000_0000) by (nonlinear_arith)
                    requires
                        0 <= self.pos_spec() <= 0xffff_ffff,
                        0 <= self.freq_spec() <= 0x1_0000_0000,
                ;
            }
            let phase: u64 = ((self.step_pos as u64) * (self.freq as u64)) % (self.sample_rate as u64);
            proof {
                vstd::arithmetic::div_mod::lemma_mod_bound(
                    self.pos_spec() * self.freq_spec(),
                    rate_g,
                );
            }
            let v: i64 = if 2 * phase < (self.sample_rate as u64) {
                SCALE
            } else {
                -SCALE
            };
            buffer.set(i, v);
            self.step_pos = wrap_inc(self.step_pos, self.sample_rate);
            proof {
                lemma_wrap_step(pre_pos, i as int, rate_g);
            }
            i = i + 1;
        }
        n
    }
}

/// Sum of entry `i` of the first `n` component signals.
pub open spec fn mix_sum(components: Seq<Seq<i64>>, i: int, n: int) -> int
    decreases n,
{
    if n <= 0 {
        0
    } else {
        mix_sum(components, i, n - 1) + components[n - 1][i]
    }
}

/// Create a signal as a synthesis of multiple component signals,
/// summed element-wise.  Components are expected already scaled by
/// their amplitudes; samples are bounded so that no sum overflows.
pub fn synth(components: &Vec<Vec<i64>>, length: usize, sample_rate: usize) -> (s: Signal)
    requires
        components@.len() <= 0x1_0000_0000,
        forall|j: int| 0 <= j < components@.len() ==> (#[trigger] components@[j])@.len() == length,
        forall|j: int, i: int|
            0 <= j < components@.len() && 0 <= i < length
                ==> -crate::SAMPLE_LIMIT <= #[trigger] (components@[j])@[i] <= crate::SAMPLE_LIMIT,
    ensures
        s.data@.len() == length,
        s.sample_rate == sample_rate,
        forall|i: int|
            0 <= i < length
                ==> s.data@[i] == mix_sum(
                components@.map_values(|c: Vec<i64>| c@),
                i,
                components@.len() as int,
            ),
{
    let ghost comps = components@.map_values(|c: Vec<i64>| c@);
    let count: usize = components.len();
    let mut data: Vec<i64> = Vec::new();
    let mut i: usize = 0;
    while i < length
        invariant
            i <= length,
            count == components@.len() <= 0x1_0000_0000,
            comps == components@.map_values(|c: Vec<i64>| c@),
            forall|j: int|
                0 <= j < components@.len() ==> (#[trigger] components@[j])@.len() == length,
            forall|j: int, q: int|
                0 <= j < components@.len() && 0 <= q < length
                    ==> -crate::SAMPLE_LIMIT <= #[trigger] (components@[j])@[q]
                        <= crate::SAMPLE_LIMIT,
            data@.len() == i as int,
            forall|k: int| 0 <= k < i ==> data@[k] == mix_sum(comps, k, count as int),
        decreases length - i,
    {
        let mut acc: i128 = 0;
        let mut j: usize = 0;
        while j < count
            invariant
                j <= count,
                i < length,
                count == components@.len() <= 0x1_0000_0000,
                comps == components@.map_values(|c: Vec<i64>| c@),
                forall|q: int|
                    0 <= q < components@.len() ==> (#[trigger] components@[q])@.len() == length,
                forall|q: int, t: int|
                    0 <= q < components@.len() && 0 <= t < length
                        ==> -crate::SAMPLE_LIMIT <= #[trigger] (components@[q])@[t]
                            <= crate::SAMPLE_LIMIT,
                acc as int == mix_sum(comps, i as int, j as int),
                -((j as int) * (crate::SAMPLE_LIMIT as int)) <= acc as int
                    <= (j as int) * (crate::SAMPLE_LIMIT as int),
            decreases count - j,
        {
            proof {
                assert(comps[j as int] == components@[j as int]@);
                assert((j + 1) * (crate::SAMPLE_LIMIT as int)
                    == (j as int) * (crate::SAMPLE_LIMIT as int) + crate::SAMPLE_LIMIT)
                    by (nonlinear_arith);
            }
            acc = acc + (components[j][i] as i128);
            j = j + 1;
        }
        proof {
            assert((count as int) * (crate::SAMPLE_LIMIT as int)
                <= 0x1_0000_0000 * (crate::SAMPLE_LIMIT as int)) by (nonlinear_arith)
                requires 0 <= count as int <= 0x1_0000_0000,
            ;
        }
        data.push(acc as i64);
        i = i + 1;
    }
    Signal { data, sample_rate }
}

} // verus!
