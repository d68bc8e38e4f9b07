//! The playback jitter buffer and linear-interpolation resampler.
//!
//! Decoded 48 kHz frames are queued; the output device drains the queue at
//! its own rate.  While `buffering` the output is silence and the queue only
//! fills; playback starts once the queue reaches the fill target and falls
//! back to buffering exactly when the queue runs dry.  Each output sample is
//! the linear interpolation of the two samples at the head of the queue at
//! the fractional position `frac_num / device_rate`, which advances by
//! `SOURCE_RATE / device_rate` per output sample.

use vstd::prelude::*;
use std::collections::VecDeque;
use vstd::arithmetic::div_mod::lemma_div_is_ordered;
use vstd::arithmetic::div_mod::lemma_div_multiples_vanish;
use vstd::arithmetic::div_mod::lemma_div_pos_is_pos;
use vstd::arithmetic::mul::lemma_mul_inequality;

verus! {

/// The internal pipeline rate in Hz.
pub const SOURCE_RATE: u32 = 48000;

/// Samples that must be queued before playback starts (about 80 ms).
pub const BUFFER_TARGET: usize = 3840;

/// Linear interpolation between `a` and `b` at position `num / den`,
/// rounded towards `a`.
pub open spec fn lerp(a: int, b: int, num: int, den: int) -> int {
    if b >= a {
        a + ((b - a) * num) / den
    } else {
        a - ((a - b) * num) / den
    }
}

/// One output sample: interpolate at the queue head, advance the fractional
/// position by one source step, and drop the samples it passed over.
/// Returns the sample, the remaining queue, and the new fractional position.
pub open spec fn resample_step(q: Seq<i32>, frac: int, dev: int, deaf: bool) -> (
    int,
    Seq<i32>,
    int,
) {
    let a = if q.len() > 0 {
        q[0] as int
    } else {
        0
    };
    let b = if q.len() > 1 {
        q[1] as int
    } else {
        a
    };
    let sample = if deaf {
        0
    } else {
        lerp(a, b, frac, dev)
    };
    let f2 = frac + SOURCE_RATE;
    let pops = f2 / dev;
    let q2 = q.skip(
        if pops <= q.len() {
            pops
        } else {
            q.len() as int
        },
    );
    (sample, q2, f2 % dev)
}

/// `n` output samples from state `(q, frac)`, appended to `out`.
pub open spec fn resample_span(
    q: Seq<i32>,
    frac: int,
    n: nat,
    dev: int,
    deaf: bool,
    out: Seq<i32>,
) -> (Seq<i32>, Seq<i32>, int)
    decreases n,
{
    if n == 0 {
        (out, q, frac)
    } else {
        let (s, q1, f1) = resample_step(q, frac, dev, deaf);
        resample_span(q1, f1, (n - 1) as nat, dev, deaf, out.push(s as i32))
    }
}

/// How far the queue and the fractional position move does not depend on the
/// deafen flag or on the output accumulated so far: deafening silences the
/// output but drains at the unchanged rate.
pub proof fn lemma_drain_independent_of_deafen(
    q: Seq<i32>,
    frac: int,
    n: nat,
    dev: int,
    d1: bool,
    d2: bool,
    out1: Seq<i32>,
    out2: Seq<i32>,
)
    ensures
        resample_span(q, frac, n, dev, d1, out1).1 == resample_span(q, frac, n, dev, d2, out2).1,
        resample_span(q, frac, n, dev, d1, out1).2 == resample_span(q, frac, n, dev, d2, out2).2,
    decreases n,
{
    if n > 0 {
        let (s1, q1, f1) = resample_step(q, frac, dev, d1);
        let (s2, _, _) = resample_step(q, frac, dev, d2);
        lemma_drain_independent_of_deafen(
            q1,
            f1,
            (n - 1) as nat,
            dev,
            d1,
            d2,
            out1.push(s1 as i32),
            out2.push(s2 as i32),
        );
    }
}

/// While deafened every produced sample is zero.
pub proof fn lemma_deafened_output_is_silence(
    q: Seq<i32>,
    frac: int,
    n: nat,
    dev: int,
    out: Seq<i32>,
)
    ensures
        resample_span(q, frac, n, dev, true, out).0 =~= out + Seq::new(n, |i: int| 0i32),
    decreases n,
{
    if n == 0 {
        assert(out + Seq::new(0nat, |i: int| 0i32) =~= out);
    } else {
        let (s, q1, f1) = resample_step(q, frac, dev, true);
        lemma_deafened_output_is_silence(q1, f1, (n - 1) as nat, dev, out.push(s as i32));
        assert(out.push(0i32) + Seq::new((n - 1) as nat, |i: int| 0i32) =~= out + Seq::new(
            n,
            |i: int| 0i32,
        ));
    }
}

/// The resampler only ever consumes from the front: what comes out of the
/// queue is a prefix-drop, never a reordering.  The fractional position
/// stays inside `[0, dev)` whenever it starts there.
pub proof fn lemma_span_drains_in_order(q: Seq<i32>, frac: int, n: nat, dev: int, deaf: bool, out: Seq<i32>)
    requires
        0 < dev,
        0 <= frac < dev,
    ensures
        ({
            let (o, q2, f2) = resample_span(q, frac, n, dev, deaf, out);
            exists|k: int|
                0 <= k <= q.len() && q2 == q.skip(k)
        }),
        0 <= resample_span(q, frac, n, dev, deaf, out).2 < dev,
    decreases n,
{
    if n == 0 {
        assert(q.skip(0) =~= q);
        assert(q == q.skip(0));
    } else {
        let (s, q1, f1) = resample_step(q, frac, dev, deaf);
        let f2 = frac + SOURCE_RATE;
        assert(0 <= f2 % dev < dev) by {
            vstd::arithmetic::div_mod::lemma_mod_bound(f2, dev);
        }
        lemma_span_drains_in_order(q1, f1, (n - 1) as nat, dev, deaf, out.push(s as i32));
        let (o, q2, fz) = resample_span(q1, f1, (n - 1) as nat, dev, deaf, out.push(s as i32));
        let k1 = choose|k: int| 0 <= k <= q1.len() && q2 == q1.skip(k);
        let pops = f2 / dev;
        let drop0: int = if pops <= q.len() {
            pops
        } else {
            q.len() as int
        };
        assert(pops >= 0) by {
            lemma_div_pos_is_pos(f2, dev);
        }
        assert(q1 == q.skip(drop0));
        assert(q1.skip(k1) =~= q.skip(drop0 + k1));
        assert(q2 == q.skip(drop0 + k1));
    }
}

/// Mathematical value of the jitter buffer.
#[verifier::ext_equal]
pub struct JitterView {
    pub queue: Seq<i32>,
    pub frac_num: int,
    pub buffering: bool,
    pub device_rate: int,
}

/// The playback jitter buffer.
pub struct JitterBuffer {
    queue: VecDeque<i32>,
    frac_num: u32,
    buffering: bool,
    device_rate: u32,
}

impl View for JitterBuffer {
    type V = JitterView;

    closed spec fn view(&self) -> JitterView {
        JitterView {
            queue: self.queue@,
            frac_num: self.frac_num as int,
            buffering: self.buffering,
            device_rate: self.device_rate as int,
        }
    }
}

/// Well-formedness: a sane device rate and a fractional position below one.
pub open spec fn jitter_wf(j: JitterView) -> bool {
    &&& 1 <= j.device_rate <= 1_000_000
    &&& 0 <= j.frac_num < j.device_rate
}

impl JitterBuffer {
    /// A fresh buffer for a device running at `device_rate` Hz, in the
    /// buffering state.
    pub fn new(device_rate: u32) -> (r: JitterBuffer)
        requires
            1 <= device_rate <= 1_000_000,
        ensures
            jitter_wf(r@),
            r@.queue.len() == 0,
            r@.frac_num == 0,
            r@.buffering,
            r@.device_rate == device_rate as int,
    {
        JitterBuffer {
            queue: VecDeque::new(),
            frac_num: 0,
            buffering: true,
            device_rate,
        }
    }

    /// Queues one decoded frame for playback.
    pub fn push_frame(&mut self, samples: &Vec<i32>)
        requires
            jitter_wf(old(self)@),
        ensures
            jitter_wf(final(self)@),
            final(self)@.queue == old(self)@.queue + samples@,
            final(self)@.frac_num == old(self)@.frac_num,
            final(self)@.buffering == old(self)@.buffering,
            final(self)@.device_rate == old(self)@.device_rate,
    {
        let mut i: usize = 0;
        proof {
            assert(self@.queue =~= old(self)@.queue + samples@.take(0));
        }
        while i < samples.len()
            invariant
                i <= samples@.len(),
                self@.queue == old(self)@.queue + samples@.take(i as int),
                self@.frac_num == old(self)@.frac_num,
                self@.buffering == old(self)@.buffering,
                self@.device_rate == old(self)@.device_rate,
                jitter_wf(self@),
            decreases samples@.len() - i,
        {
            self.queue.push_back(samples[i]);
            proof {
                assert(self@.queue =~= old(self)@.queue + samples@.take(i + 1));
            }
            i = i + 1;
        }
        proof {
            assert(samples@.take(samples@.len() as int) =~= samples@);
        }
    }

    /// Samples queued right now.
    pub fn queued_len(&self) -> (r: usize)
        ensures
            r == self@.queue.len(),
    {
        self.queue.len()
    }

    /// Is the buffer in its buffering state?
    pub fn is_buffering(&self) -> (r: bool)
        ensures
            r == self@.buffering,
    {
        self.buffering
    }

    /// Fills one output block of `out_len` samples, as the output device
    /// callback does.  While buffering (below target) the block is silence
    /// and the queue does not drain; playback starts at the fill target; an
    /// empty queue during playback flips back to buffering with the block
    /// silent; otherwise the block is resampled from the queue head, and
    /// when `deafened` the block is silenced while the queue drains exactly
    /// as it would have.
    pub fn fill_output(&mut self, out_len: usize, deafened: bool) -> (out: Vec<i32>)
        requires
            jitter_wf(old(self)@),
            out_len <= 1_000_000,
        ensures
            jitter_wf(final(self)@),
            final(self)@.device_rate == old(self)@.device_rate,
            out@.len() == out_len,
            old(self)@.buffering && old(self)@.queue.len() < BUFFER_TARGET ==> {
                &&& final(self)@.queue == old(self)@.queue
                &&& final(self)@.buffering
                &&& final(self)@.frac_num == old(self)@.frac_num
                &&& out@ =~= Seq::new(out_len as nat, |i: int| 0i32)
            },
            !old(self)@.buffering && old(self)@.queue.len() == 0 ==> {
                &&& final(self)@.queue == old(self)@.queue
                &&& final(self)@.buffering
                &&& final(self)@.frac_num == old(self)@.frac_num
                &&& out@ =~= Seq::new(out_len as nat, |i: int| 0i32)
            },
            (old(self)@.buffering && old(self)@.queue.len() >= BUFFER_TARGET) || (!old(
                self,
            )@.buffering && old(self)@.queue.len() > 0) ==> {
                let (o, q2, f2) = resample_span(
                    old(self)@.queue,
                    old(self)@.frac_num,
                    out_len as nat,
                    old(self)@.device_rate,
                    deafened,
                    Seq::empty(),
                );
                &&& out@ == o
                &&& final(self)@.queue == q2
                &&& final(self)@.frac_num == f2
                &&& !final(self)@.buffering
            },
    {
        let mut out: Vec<i32> = Vec::new();
        if self.buffering {
            if self.queue.len() >= BUFFER_TARGET {
                self.buffering = false;
            } else {
                return self.fill_silence(out_len);
            }
        } else if self.queue.len() == 0 {
            self.buffering = true;
            return self.fill_silence(out_len);
        }
        let ghost q0 = self@.queue;
        let ghost f0 = self@.frac_num;
        let dev = self.device_rate;
        let mut i: usize = 0;
        proof {
            assert(resample_span(q0, f0, out_len as nat, dev as int, deafened, Seq::empty())
                == resample_span(
                self@.queue,
                self@.frac_num,
                (out_len - i) as nat,
                dev as int,
                deafened,
                out@,
            ));
        }
        while i < out_len
            invariant
                i <= out_len,
                out_len <= 1_000_000,
                out@.len() == i,
                jitter_wf(self@),
                self@.device_rate == dev as int,
                self@.buffering == false,
                resample_span(q0, f0, out_len as nat, dev as int, deafened, Seq::empty())
                    == resample_span(
                    self@.queue,
                    self@.frac_num,
                    (out_len - i) as nat,
                    dev as int,
                    deafened,
                    out@,
                ),
            decreases out_len - i,
        {
            let ghost q_pre = self@.queue;
            let ghost f_pre = self@.frac_num;
            let qlen = self.queue.len();
            let a: i32 = if qlen > 0 {
                self.queue[0]
            } else {
                0
            };
            let b: i32 = if qlen > 1 {
                self.queue[1]
            } else {
                a
            };
            let sample: i32 = if deafened {
                0
            } else {
                Self::lerp_exec(a, b, self.frac_num, dev)
            };
            out.push(sample);
            let f2 = self.frac_num + SOURCE_RATE;
            let mut pops = f2 / dev;
            self.frac_num = f2 % dev;
            proof {
                assert((f2 as int) / (dev as int) >= 0) by {
                    lemma_div_pos_is_pos(f2 as int, dev as int);
                }
                assert(0 <= ((f2 as int) % (dev as int)) < (dev as int)) by {
                    vstd::arithmetic::div_mod::lemma_mod_bound(f2 as int, dev as int);
                }
                assert((f2 as int) / (dev as int) <= f2 as int) by (nonlinear_arith)
                    requires
                        1 <= dev as int,
                        0 <= f2 as int,
                ;
            }
            let ghost pops0 = pops as int;
            let mut dropped: usize = 0;
            while pops > 0
                invariant
                    self@.queue == q_pre.skip(
                        if dropped as int <= q_pre.len() {
                            dropped as int
                        } else {
                            q_pre.len() as int
                        },
                    ),
                    dropped + pops == pops0,
                    pops0 <= 1_100_000,
                    self@.frac_num == (f2 as int) % (dev as int),
                    self@.buffering == false,
                    self@.device_rate == dev as int,
                decreases pops,
            {
                proof {
                    if dropped < q_pre.len() {
                        assert(q_pre.skip(dropped as int).drop_first() =~= q_pre.skip(
                            dropped + 1,
                        ));
                    } else {
                        assert(q_pre.skip(q_pre.len() as int).len() == 0);
                    }
                }
                self.queue.pop_front();
                dropped = dropped + 1;
                pops = pops - 1;
            }
            proof {
                let stepped = resample_step(q_pre, f_pre, dev as int, deafened);
                assert(stepped.0 == sample as int);
                assert(self@.queue == stepped.1);
                assert(self@.frac_num == stepped.2);
                assert(out@.take(i as int).push(sample) =~= out@);
                assert(resample_span(
                    q_pre,
                    f_pre,
                    (out_len - i) as nat,
                    dev as int,
                    deafened,
                    out@.take(i as int),
                ) == resample_span(
                    self@.queue,
                    self@.frac_num,
                    (out_len - (i + 1)) as nat,
                    dev as int,
                    deafened,
                    out@,
                ));
            }
            i = i + 1;
        }
        proof {
            assert(resample_span(
                self@.queue,
                self@.frac_num,
                0nat,
                dev as int,
                deafened,
                out@,
            ) == (out@, self@.queue, self@.frac_num));
        }
        out
    }

    /// A block of silence; the queue does not move.
    fn fill_silence(&mut self, out_len: usize) -> (out: Vec<i32>)
        requires
            jitter_wf(old(self)@),
        ensures
            jitter_wf(final(self)@),
            final(self)@ == old(self)@,
            out@.len() == out_len,
            out@ =~= Seq::new(out_len as nat, |i: int| 0i32),
    {
        let mut out: Vec<i32> = Vec::new();
        let mut i: usize = 0;
        while i < out_len
            invariant
                i <= out_len,
                self == old(self),
                out@.len() == i,
                forall|t: int| 0 <= t < i ==> out@[t] == 0i32,
            decreases out_len - i,
        {
            out.push(0);
            i = i + 1;
        }
        proof {
            assert(out@ =~= Seq::new(out_len as nat, |i: int| 0i32));
        }
        out
    }

    /// Integer linear interpolation, rounded towards `a`.
    fn lerp_exec(a: i32, b: i32, num: u32, den: u32) -> (r: i32)
        requires
            0 < den <= 1_000_000,
            num < den,
        ensures
            r as int == lerp(a as int, b as int, num as int, den as int),
    {
        if b >= a {
            let diff = (b as i64 - a as i64) as u64;
            proof {
                assert((diff as int) * (num as int) <= 0xffffffffint * 1_000_000int)
                    by (nonlinear_arith)
                    requires
                        0 <= diff as int <= 0xffffffff,
                        0 <= num as int <= 1_000_000,
                ;
            }
            let q = (diff * num as u64) / den as u64;
            proof {
                assert(diff as int * num as int <= diff as int * den as int) by {
                    lemma_mul_inequality(num as int, den as int, diff as int);
                }
                assert((diff as int * num as int) / den as int <= (diff as int * den as int)
                    / den as int) by {
                    lemma_div_is_ordered(
                        diff as int * num as int,
                        diff as int * den as int,
                        den as int,
                    );
                }
                assert((diff as int * den as int) / den as int == diff as int) by {
                    lemma_div_multiples_vanish(diff as int, den as int);
                }
                assert((diff as int * num as int) / den as int >= 0) by {
                    lemma_div_pos_is_pos(diff as int * num as int, den as int);
                }
            }
            let r = a as i64 + q as i64;
            r as i32
        } else {
            let diff = (a as i64 - b as i64) as u64;
            proof {
                assert((diff as int) * (num as int) <= 0xffffffffint * 1_000_000int)
                    by (nonlinear_arith)
                    requires
                        0 <= diff as int <= 0xffffffff,
                        0 <= num as int <= 1_000_000,
                ;
            }
            let q = (diff * num as u64) / den as u64;
            proof {
                assert(diff as int * num as int <= diff as int * den as int) by {
                    lemma_mul_inequality(num as int, den as int, diff as int);
                }
                assert((diff as int * num as int) / den as int <= (diff as int * den as int)
                    / den as int) by {
                    lemma_div_is_ordered(
                        diff as int * num as int,
                        diff as int * den as int,
                        den as int,
                    );
                }
                assert((diff as int * den as int) / den as int == diff as int) by {
                    lemma_div_multiples_vanish(diff as int, den as int);
                }
                assert((diff as int * num as int) / den as int >= 0) by {
                    lemma_div_pos_is_pos(diff as int * num as int, den as int);
                }
            }
            let r = a as i64 - q as i64;
            r as i32
        }
    }
}

} // verus!
