//! Decimation and zero-stuffing interpolation whose phase carries over from
//! one chunk of a stream to the next.
use vstd::prelude::*;

verus! {

/// `(x + 1) % k` computed from `x % k`, as the samplers step their phase.
proof fn lemma_phase_step(x: int, k: int)
    requires
        x >= 0,
        k > 0,
    ensures
        (x + 1) % k == (if x % k + 1 == k { 0 } else { x % k + 1 }),
{
    vstd::arithmetic::div_mod::lemma_add_mod_noop(x, 1, k);
    vstd::arithmetic::div_mod::lemma_mod_bound(x, k);
    if k > 1 {
        vstd::arithmetic::div_mod::lemma_small_mod(1, k as nat);
        if x % k + 1 < k {
            vstd::arithmetic::div_mod::lemma_small_mod((x % k + 1) as nat, k as nat);
        } else {
            vstd::arithmetic::div_mod::lemma_mod_self_0(k);
        }
    } else {
        vstd::arithmetic::div_mod::lemma_mod_bound(x + 1, k);
    }
}

/// What decimation by `k` keeps of `s` when the sampler starts at phase `c`:
/// the items whose phase `(c + i) % k` is zero, in order.
pub open spec fn down_seq<T>(s: Seq<T>, c: nat, k: nat) -> Seq<T>
    decreases s.len(),
{
    if s.len() == 0 {
        seq![]
    } else {
        let before = down_seq(s.drop_last(), c, k);
        if k > 0 && (c + s.len() - 1) % (k as int) == 0 {
            before.push(s.last())
        } else {
            before
        }
    }
}

/// `n` copies of `fill`.
pub open spec fn fill_run<T>(n: nat, fill: T) -> Seq<T> {
    Seq::new(n, |i: int| fill)
}

/// Each item of `s` followed by `k - 1` copies of `fill`.
pub open spec fn up_body<T>(s: Seq<T>, k: nat, fill: T) -> Seq<T>
    decreases s.len(),
{
    if s.len() == 0 {
        seq![]
    } else {
        up_body(s.drop_last(), k, fill) + seq![s.last()] + fill_run((k - 1) as nat, fill)
    }
}

/// What interpolation by `k` yields from all of `s` when the sampler starts at
/// phase `c`: the fills that complete the group already begun, then each item
/// followed by `k - 1` fills.
pub open spec fn up_seq<T>(s: Seq<T>, c: nat, k: nat, fill: T) -> Seq<T> {
    let pad: nat = if c == 0 { 0 } else { (k - c) as nat };
    fill_run(pad, fill) + up_body(s, k, fill)
}

/// Keeps one item out of every `scale`, the one at phase zero.
#[derive(Debug, Clone, PartialEq, Eq)]
pub struct DownSampler {
    scale: usize,
    count: usize,
}

/// A source handed to a [`DownSampler`], drained one group at a time.
#[derive(Debug, PartialEq, Eq)]
pub struct DownSampling<T> {
    source: Vec<T>,
    pos: usize,
}

impl DownSampler {
    /// The decimation factor.
    pub closed spec fn scale(&self) -> nat {
        self.scale as nat
    }

    /// Position of the next item within its group of `scale`.
    pub closed spec fn phase(&self) -> nat {
        self.count as nat
    }

    pub closed spec fn wf(&self) -> bool {
        self.count < self.scale || self.count == 0
    }

    pub fn new(scale: usize) -> (r: Self)
        ensures
            r.wf(),
            r.scale() == scale,
            r.phase() == 0,
    {
        Self { scale, count: 0 }
    }

    /// Hands `source` over to be drained through this sampler, from its first item.
    pub fn iter<T: Copy>(&self, source: Vec<T>) -> (r: DownSampling<T>)
        ensures
            r.source() == source@,
            r.pos() == 0,
    {
        DownSampling { source, pos: 0 }
    }

    /// Decimates the whole of `xs`, continuing from the current phase.
    pub fn down_sample<T: Copy>(&mut self, xs: &Vec<T>) -> (r: Vec<T>)
        requires
            old(self).wf(),
        ensures
            final(self).wf(),
            final(self).scale() == old(self).scale(),
            r@ == down_seq(xs@, old(self).phase(), old(self).scale()),
            final(self).phase() == (if old(self).scale() == 0 {
                0
            } else {
                ((old(self).phase() + xs@.len()) as int % (old(self).scale() as int)) as nat
            }),
    {
        let ghost c = self.count as nat;
        let mut out: Vec<T> = Vec::new();
        if self.scale == 0 {
            proof {
                assert forall|j: int| 0 <= j <= xs@.len() implies down_seq(
                    #[trigger] xs@.take(j),
                    c,
                    0,
                ) == Seq::<T>::empty() by {
                    lemma_down_seq_zero_scale(xs@.take(j), c);
                }
                assert(xs@.take(xs@.len() as int) =~= xs@);
            }
            return out;
        }
        proof {
            vstd::arithmetic::div_mod::lemma_small_mod(c, self.scale as nat);
        }
        let mut i: usize = 0;
        while i < xs.len()
            invariant
                self.scale > 0,
                self.scale == old(self).scale,
                c == old(self).count,
                self.count < self.scale,
                0 <= i <= xs@.len(),
                self.count == (c + i) % (self.scale as int),
                out@ == down_seq(xs@.take(i as int), c, self.scale as nat),
            decreases xs@.len() - i,
        {
            let x = xs[i];
            proof {
                assert(xs@.take(i + 1).drop_last() =~= xs@.take(i as int));
                lemma_phase_step(c + i, self.scale as int);
            }
            if self.count == 0 {
                out.push(x);
            }
            self.count = if self.count + 1 == self.scale {
                0
            } else {
                self.count + 1
            };
            i = i + 1;
        }
        proof {
            assert(xs@.take(xs@.len() as int) =~= xs@);
        }
        out
    }
}

proof fn lemma_down_seq_zero_scale<T>(s: Seq<T>, c: nat)
    ensures
        down_seq(s, c, 0) == Seq::<T>::empty(),
    decreases s.len(),
{
    if s.len() > 0 {
        lemma_down_seq_zero_scale(s.drop_last(), c);
    }
}

/// Decimating `a` then `b` from phase `c` is decimating `a + b` from phase `c`.
proof fn lemma_down_seq_append<T>(a: Seq<T>, b: Seq<T>, c: nat, k: nat)
    ensures
        down_seq(a + b, c, k) == down_seq(a, c, k) + down_seq(b, c + a.len(), k),
    decreases b.len(),
{
    if b.len() == 0 {
        assert(a + b =~= a);
        assert(down_seq(a, c, k) + down_seq(b, c + a.len(), k) =~= down_seq(a, c, k));
    } else {
        lemma_down_seq_append(a, b.drop_last(), c, k);
        assert((a + b).drop_last() =~= a + b.drop_last());
        let rest = down_seq(b.drop_last(), c + a.len(), k);
        assert((down_seq(a, c, k) + rest).push(b.last()) =~= down_seq(a, c, k) + rest.push(b.last()));
    }
}

/// Of a group of `k` items that starts on a group boundary, decimation keeps the first.
proof fn lemma_down_seq_group<T>(s: Seq<T>, q: nat, k: nat, t: nat)
    requires
        k > 0,
        1 <= t <= k,
        s.len() == k,
    ensures
        down_seq(s.take(t as int), q * k, k) == seq![s[0]],
    decreases t,
{
    vstd::arithmetic::div_mod::lemma_mod_multiples_vanish(q as int, (t - 1) as int, k as int);
    vstd::arithmetic::div_mod::lemma_small_mod((t - 1) as nat, k);
    assert(s.take(t as int).drop_last() =~= s.take(t - 1));
    assert(k * q == q * k) by (nonlinear_arith);
    assert(((q * k + t - 1) as int) % (k as int) == (t - 1) as int);
    assert(s.take(t as int).last() == s[t - 1]);
    let c = q * k;
    if t == 1 {
        assert(s.take(0) =~= Seq::<T>::empty());
        assert(down_seq(s.take(0), c, k) == Seq::<T>::empty());
        assert((c + s.take(1).len() - 1) % (k as int) == 0);
        assert(down_seq(s.take(1), c, k) == down_seq(s.take(0), c, k).push(s[0]));
        assert(seq![].push(s[0]) =~= seq![s[0]]);
    } else {
        lemma_down_seq_group(s, q, k, (t - 1) as nat);
        assert((c + s.take(t as int).len() - 1) % (k as int) != 0);
        assert(down_seq(s.take(t as int), c, k) == down_seq(s.take(t - 1), c, k));
    }
}

/// Decimating whole groups from phase zero keeps the first item of each group.
proof fn lemma_down_seq_groups<T>(s: Seq<T>, k: nat, m: nat)
    requires
        k > 0,
        s.len() == m * k,
    ensures
        down_seq(s, 0, k) =~= Seq::new(m, |i: int| s[i * k]),
    decreases m,
{
    if m > 0 {
        let head = s.take((m - 1) * k);
        let tail = s.skip((m - 1) * k);
        assert(m * k == (m - 1) * k + k) by (nonlinear_arith);
        assert(s =~= head + tail);
        lemma_down_seq_groups(head, k, (m - 1) as nat);
        lemma_down_seq_append(head, tail, 0, k);
        lemma_down_seq_group(tail, (m - 1) as nat, k, k);
        assert(tail.take(k as int) =~= tail);
        assert(head.len() == (m - 1) * k);
        assert(down_seq(tail, (0 + head.len()) as nat, k) == seq![tail[0]]);
        assert(tail[0] == s[(m - 1) * k]);
        assert(down_seq(s, 0, k) == down_seq(head, 0, k) + seq![tail[0]]);
        assert(down_seq(head, 0, k) + seq![tail[0]] =~= down_seq(head, 0, k).push(tail[0]));
        assert forall|i: int| 0 <= i < m - 1 implies #[trigger] head[i * k] == s[i * k] by {
            assert(i * k < (m - 1) * k) by (nonlinear_arith)
                requires
                    0 <= i < m - 1,
                    k > 0,
            ;
        }
        assert(Seq::new((m - 1) as nat, |i: int| head[i * k]).push(tail[0]) =~= Seq::new(
            m,
            |i: int| s[i * k],
        ));
    } else {
        assert(s.len() == 0) by (nonlinear_arith)
            requires
                s.len() == m * k,
                m == 0,
        ;
    }
}

proof fn lemma_up_body_len<T>(s: Seq<T>, k: nat, fill: T)
    requires
        k > 0,
    ensures
        up_body(s, k, fill).len() == s.len() * k,
    decreases s.len(),
{
    if s.len() > 0 {
        lemma_up_body_len(s.drop_last(), k, fill);
        assert(s.len() * k == (s.len() - 1) * k + k) by (nonlinear_arith);
    }
}

/// A sampler pair fed whole groups: decimating `s` from phase zero keeps the
/// first item of each group of `k` and leaves the phase at zero, and
/// interpolating those items from phase zero gives back a sequence of the length
/// of `s`, again leaving the phase at zero.
pub proof fn lemma_whole_groups_round_trip_len<T>(s: Seq<T>, k: nat, fill: T)
    requires
        k > 0,
        s.len() % k == 0,
    ensures
        down_seq(s, 0, k) == Seq::new(s.len() / k, |i: int| s[i * k]),
        up_seq(down_seq(s, 0, k), 0, k, fill).len() == s.len(),
{
    let x = s.len() as int;
    let d = k as int;
    vstd::arithmetic::div_mod::lemma_fundamental_div_mod(x, d);
    assert(x == (x / d) * d) by (nonlinear_arith)
        requires
            x == d * (x / d) + x % d,
            x % d == 0,
    ;
    let m = (x / d) as nat;
    lemma_down_seq_groups(s, k, m);
    lemma_up_body_len(down_seq(s, 0, k), k, fill);
    assert(up_seq(down_seq(s, 0, k), 0, k, fill) =~= up_body(down_seq(s, 0, k), k, fill));
}

impl<T: Copy> DownSampling<T> {
    /// The items handed over.
    pub closed spec fn source(&self) -> Seq<T> {
        self.source@
    }

    /// How many of them have been drawn.
    pub closed spec fn pos(&self) -> nat {
        self.pos as nat
    }

    /// Draws the next group of up to `scale` items from the source and yields
    /// the one at phase zero, if the group holds one.
    pub fn next(&mut self, sampler: &mut DownSampler) -> (r: Option<T>)
        requires
            old(sampler).wf(),
            old(self).pos() <= old(self).source().len(),
        ensures
            final(sampler).wf(),
            final(sampler).scale() == old(sampler).scale(),
            final(self).source() == old(self).source(),
            ({
                let k = old(sampler).scale();
                let c = old(sampler).phase();
                let left = (old(self).source().len() - old(self).pos()) as nat;
                let m: nat = if left < k { left } else { k };
                let first: nat = if c == 0 { 0 } else { (k - c) as nat };
                &&& final(self).pos() == old(self).pos() + m
                &&& final(sampler).phase() == (if k == 0 { 0 } else { ((c + m) as int % (k as int)) as nat })
                &&& r == (if first < m {
                    Some(old(self).source()[(old(self).pos() + first) as int])
                } else {
                    None
                })
            }),
    {
        let ghost c = sampler.count as nat;
        let ghost p = self.pos as nat;
        let ghost k = sampler.scale as nat;
        let ghost first: nat = if c == 0 { 0 } else { (k - c) as nat };
        let mut ret: Option<T> = None;
        if sampler.scale == 0 {
            return ret;
        }
        proof {
            vstd::arithmetic::div_mod::lemma_small_mod(c, k);
        }
        let mut j: usize = 0;
        while j < sampler.scale && self.pos < self.source.len()
            invariant
                sampler.scale == k,
                k > 0,
                sampler.count < k,
                c < k,
                first == (if c == 0 { 0 } else { (k - c) as nat }),
                self.source@ == old(self).source@,
                self.pos == p + j,
                p <= self.pos <= self.source@.len(),
                j <= k,
                sampler.count == (c + j) % (k as int),
                ret == (if first < j {
                    Some(self.source@[(p + first) as int])
                } else {
                    None::<T>
                }),
            decreases k - j,
        {
            let item = self.source[self.pos];
            proof {
                lemma_phase_step(c + j, k as int);
                if j < first {
                    assert(c + j < k);
                    vstd::arithmetic::div_mod::lemma_small_mod((c + j) as nat, k);
                    assert(c + j != 0);
                } else if j == first {
                    if c != 0 {
                        vstd::arithmetic::div_mod::lemma_mod_self_0(k as int);
                    } else {
                        vstd::arithmetic::div_mod::lemma_small_mod(0, k);
                    }
                } else if c == 0 {
                    vstd::arithmetic::div_mod::lemma_small_mod(j as nat, k);
                } else {
                    vstd::arithmetic::div_mod::lemma_mod_add_multiples_vanish(c + j - k, k as int);
                    vstd::arithmetic::div_mod::lemma_small_mod((c + j - k) as nat, k);
                }
            }
            if sampler.count == 0 {
                ret = Some(item);
            }
            sampler.count = if sampler.count + 1 == sampler.scale {
                0
            } else {
                sampler.count + 1
            };
            self.pos = self.pos + 1;
            j = j + 1;
        }
        ret
    }
}

/// Follows each item with `scale - 1` copies of a fill value.
#[derive(Debug, Clone, PartialEq, Eq)]
pub struct UpSampler<T> {
    scale: usize,
    with: T,
    count: usize,
}

/// A source handed to an [`UpSampler`], drained one output item at a time.
#[derive(Debug, PartialEq, Eq)]
pub struct UpSampling<T> {
    source: Vec<T>,
    pos: usize,
}

impl<T: Copy> UpSampler<T> {
    /// The interpolation factor.
    pub closed spec fn scale(&self) -> nat {
        self.scale as nat
    }

    /// The value put between source items.
    pub closed spec fn fill(&self) -> T {
        self.with
    }

    /// Position of the next output item within its group of `scale`.
    pub closed spec fn phase(&self) -> nat {
        self.count as nat
    }

    pub closed spec fn wf(&self) -> bool {
        self.count < self.scale
    }

    pub fn new(scale: usize, with: T) -> (r: UpSampler<T>)
        requires
            scale > 0,
        ensures
            r.wf(),
            r.scale() == scale,
            r.fill() == with,
            r.phase() == 0,
    {
        UpSampler { scale, with, count: 0 }
    }

    /// Hands `source` over to be drained through this sampler, from its first item.
    pub fn iter(&self, source: Vec<T>) -> (r: UpSampling<T>)
        ensures
            r.source() == source@,
            r.pos() == 0,
    {
        UpSampling { source, pos: 0 }
    }

    /// Interpolates the whole of `xs`, continuing from the current phase, and
    /// stops at the first group that the source cannot begin.
    pub fn up_sample(&mut self, xs: &Vec<T>) -> (r: Vec<T>)
        requires
            old(self).wf(),
            old(self).scale() * (xs@.len() + 1) <= usize::MAX,
        ensures
            final(self).wf(),
            final(self).scale() == old(self).scale(),
            final(self).fill() == old(self).fill(),
            final(self).phase() == 0,
            r@ == up_seq(xs@, old(self).phase(), old(self).scale(), old(self).fill()),
    {
        let ghost c = self.count as nat;
        let ghost k = self.scale as nat;
        let ghost pad: nat = if c == 0 { 0 } else { (k - c) as nat };
        let mut out: Vec<T> = Vec::new();
        while self.count != 0
            invariant
                self.scale == k,
                self.with == old(self).with,
                self.count < k,
                c == 0 ==> self.count == 0,
                c <= self.count || self.count == 0,
                pad == (if c == 0 { 0 } else { (k - c) as nat }),
                out@ == fill_run((if self.count == 0 { pad } else { (self.count - c) as nat }), self.with),
            decreases (if self.count == 0 { 0 } else { k - self.count }),
        {
            out.push(self.with);
            proof {
                assert(out@ =~= fill_run((if self.count + 1 == k { pad } else { (self.count + 1 - c) as nat }), self.with));
            }
            self.count = if self.count + 1 == self.scale {
                0
            } else {
                self.count + 1
            };
        }
        let mut i: usize = 0;
        while i < xs.len()
            invariant
                self.scale == k,
                k > 0,
                k * (xs@.len() + 1) <= usize::MAX,
                pad < k,
                pad == (if c == 0 { 0 } else { (k - c) as nat }),
                self.with == old(self).with,
                self.count == 0,
                0 <= i <= xs@.len(),
                out@ == fill_run(pad, self.with) + up_body(xs@.take(i as int), k, self.with),
                out@.len() == pad + i * k,
            decreases xs@.len() - i,
        {
            let ghost before = out@;
            proof {
                assert(xs@.take(i + 1).drop_last() =~= xs@.take(i as int));
                assert(pad + (i + 1) * k <= k * (xs@.len() + 1)) by (nonlinear_arith)
                    requires
                        pad < k,
                        i + 1 <= xs@.len(),
                ;
            }
            out.push(xs[i]);
            let mut t: usize = 1;
            while t < self.scale
                invariant
                    self.scale == k,
                    1 <= t <= k,
                    i < xs@.len(),
                    self.with == old(self).with,
                    out@ == before + seq![xs@[i as int]] + fill_run((t - 1) as nat, self.with),
                decreases k - t,
            {
                out.push(self.with);
                proof {
                    assert(out@ =~= before + seq![xs@[i as int]] + fill_run(t as nat, self.with));
                }
                t = t + 1;
            }
            proof {
                assert(xs@.take(i + 1).last() == xs@[i as int]);
                assert(out@ =~= fill_run(pad, self.with) + up_body(xs@.take(i + 1), k, self.with));
                assert((i + 1) * k == i * k + k) by (nonlinear_arith);
            }
            i = i + 1;
        }
        proof {
            assert(xs@.take(xs@.len() as int) =~= xs@);
        }
        out
    }
}

/// Relies on num_traits::Zero::zero for the additive identity of `T`.
#[verifier::external_body]
fn zero_of<T: num_traits::Zero>() -> T {
    T::zero()
}

impl<T: Copy + num_traits::Zero> UpSampler<T> {
    /// An up-sampler whose fill value is the zero of `T`.
    pub fn with_zero(scale: usize) -> (r: UpSampler<T>)
        requires
            scale > 0,
        ensures
            r.wf(),
            r.scale() == scale,
            r.phase() == 0,
    {
        UpSampler::new(scale, zero_of())
    }
}

impl<T: Copy> UpSampling<T> {
    /// The items handed over.
    pub closed spec fn source(&self) -> Seq<T> {
        self.source@
    }

    /// How many of them have been drawn.
    pub closed spec fn pos(&self) -> nat {
        self.pos as nat
    }

    /// Yields the next output item: at phase zero the next source item, if
    /// any is left; at any other phase the fill value. The phase advances only
    /// when an item is yielded.
    pub fn next(&mut self, sampler: &mut UpSampler<T>) -> (r: Option<T>)
        requires
            old(sampler).wf(),
            old(self).pos() <= old(self).source().len(),
        ensures
            final(sampler).wf(),
            final(sampler).scale() == old(sampler).scale(),
            final(sampler).fill() == old(sampler).fill(),
            final(self).source() == old(self).source(),
            final(self).pos() <= final(self).source().len(),
            old(sampler).phase() != 0 ==> r == Some(old(sampler).fill()) && final(self).pos()
                == old(self).pos(),
            old(sampler).phase() == 0 && old(self).pos() < old(self).source().len() ==> r == Some(
                old(self).source()[old(self).pos() as int],
            ) && final(self).pos() == old(self).pos() + 1,
            old(sampler).phase() == 0 && old(self).pos() == old(self).source().len() ==> r
                == None::<T> && final(self).pos() == old(self).pos(),
            r is Some ==> final(sampler).phase() == next_phase(
                old(sampler).phase(),
                old(sampler).scale(),
            ),
            r is None ==> final(sampler).phase() == old(sampler).phase(),
    {
        let ret = if sampler.count == 0 {
            if self.pos < self.source.len() {
                let x = self.source[self.pos];
                self.pos = self.pos + 1;
                Some(x)
            } else {
                None
            }
        } else {
            Some(sampler.with)
        };
        if ret.is_some() {
            sampler.count = if sampler.count + 1 == sampler.scale {
                0
            } else {
                sampler.count + 1
            };
        }
        ret
    }
}

/// The phase that follows `c` in a sampler of scale `k`.
pub open spec fn next_phase(c: nat, k: nat) -> nat {
    if c + 1 >= k {
        0
    } else {
        c + 1
    }
}

} // verus!
