//! Hop framing: turning a sample stream into fixed-size frames, sliding
//! analysis windows and overlap-add buffers, and interleaving complex bins.

use vstd::prelude::*;

verus! {

/// What is left pending, and the frames emitted, after feeding `input`
/// sample by sample into an assembler holding `pending` with hop `hop`.
pub open spec fn feed<T>(pending: Seq<T>, hop: nat, input: Seq<T>) -> (Seq<T>, Seq<Seq<T>>)
    decreases input.len(),
{
    if input.len() == 0 {
        (pending, Seq::empty())
    } else {
        let (p, frames) = feed(pending, hop, input.drop_last());
        let next = p.push(input.last());
        if next.len() == hop {
            (Seq::empty(), frames.push(next))
        } else {
            (next, frames)
        }
    }
}

/// The concatenation of a sequence of frames.
pub open spec fn flatten<T>(frames: Seq<Seq<T>>) -> Seq<T>
    decreases frames.len(),
{
    if frames.len() == 0 {
        Seq::empty()
    } else {
        flatten(frames.drop_last()) + frames.last()
    }
}

/// Collects samples into frames of `hop` samples.
pub struct FrameAssembler<T> {
    filled: Vec<T>,
    hop: usize,
}

impl<T> FrameAssembler<T> {
    #[verifier::type_invariant]
    spec fn inv(self) -> bool {
        &&& self.hop > 0
        &&& self.filled.len() < self.hop
    }

    /// The samples received since the last emitted frame.
    pub closed spec fn pending(&self) -> Seq<T> {
        self.filled@
    }

    /// The frame length.
    pub closed spec fn hop_len(&self) -> nat {
        self.hop as nat
    }

    /// An assembler with nothing pending that emits frames of `hop` samples.
    pub fn new(hop: usize) -> (r: Self)
        requires
            hop > 0,
        ensures
            r.pending() == Seq::<T>::empty(),
            r.hop_len() == hop,
    {
        FrameAssembler { filled: Vec::new(), hop }
    }

    /// The number of samples pending.
    pub fn pending_len(&self) -> (r: usize)
        ensures
            r == self.pending().len(),
    {
        self.filled.len()
    }

    /// Drops whatever is pending.
    pub fn clear(&mut self)
        ensures
            final(self).pending() == Seq::<T>::empty(),
            final(self).hop_len() == old(self).hop_len(),
    {
        proof {
            use_type_invariant(&*self);
        }
        self.filled = Vec::new();
    }

    /// Appends one sample; when that completes a frame, the frame is
    /// returned and the assembler starts over empty.
    pub fn push(&mut self, sample: T) -> (r: Option<Vec<T>>)
        ensures
            final(self).hop_len() == old(self).hop_len(),
            old(self).pending().len() + 1 == old(self).hop_len() ==> {
                &&& r matches Some(frame)
                &&& frame@ == old(self).pending().push(sample)
                &&& final(self).pending() == Seq::<T>::empty()
            },
            old(self).pending().len() + 1 != old(self).hop_len() ==> {
                &&& r is None
                &&& final(self).pending() == old(self).pending().push(sample)
            },
            feed(old(self).pending(), old(self).hop_len(), seq![sample]) == (
                final(self).pending(),
                match r {
                    Some(frame) => seq![frame@],
                    None => Seq::<Seq<T>>::empty(),
                },
            ),
    {
        proof {
            use_type_invariant(&*self);
            assert(seq![sample].drop_last() =~= Seq::<T>::empty());
            assert(seq![sample].last() == sample);
            assert(feed(self.filled@, self.hop as nat, Seq::<T>::empty()) == (self.filled@, Seq::<Seq<T>>::empty()));
        }
        let mut filled = Vec::new();
        std::mem::swap(&mut filled, &mut self.filled);
        filled.push(sample);
        if filled.len() == self.hop {
            assert(Seq::<Seq<T>>::empty().push(filled@) =~= seq![filled@]);
            Some(filled)
        } else {
            self.filled = filled;
            None
        }
    }
}

/// Framing a stream loses nothing and reorders nothing: the frames that
/// come out, followed by what is still pending, are exactly what was
/// pending before followed by the input; every frame holds `hop` samples and
/// fewer than `hop` samples stay pending.
pub proof fn lemma_feed_preserves_stream<T>(pending: Seq<T>, hop: nat, input: Seq<T>)
    requires
        pending.len() < hop,
    ensures
        ({
            let (p, frames) = feed(pending, hop, input);
            &&& flatten(frames) + p == pending + input
            &&& p.len() < hop
            &&& forall|i: int| 0 <= i < frames.len() ==> #[trigger] frames[i].len() == hop
        }),
    decreases input.len(),
{
    if input.len() > 0 {
        lemma_feed_preserves_stream(pending, hop, input.drop_last());
        let (p, frames) = feed(pending, hop, input.drop_last());
        let next = p.push(input.last());
        assert(input.drop_last().push(input.last()) =~= input);
        assert(flatten(frames) + next =~= (flatten(frames) + p).push(input.last()));
        assert((pending + input.drop_last()).push(input.last()) =~= pending + input);
        if next.len() == hop {
            let nf = frames.push(next);
            assert(nf.drop_last() =~= frames);
            assert(flatten(nf) == flatten(frames) + next);
            assert(flatten(nf) + Seq::<T>::empty() =~= pending + input);
            assert forall|i: int| 0 <= i < nf.len() implies #[trigger] nf[i].len() == hop by {
                if i < frames.len() {
                    assert(nf[i] == frames[i]);
                }
            }
        } else {
            assert(flatten(frames) + next =~= pending + input);
        }
    } else {
        assert(flatten(Seq::<Seq<T>>::empty()) + pending =~= pending + input);
    }
}

/// `window` shifted left by `fresh.len()` with `fresh` appended.
pub fn slide_in<T: Copy>(window: &mut Vec<T>, fresh: &[T])
    requires
        fresh.len() <= old(window).len(),
    ensures
        final(window)@ == old(window)@.skip(fresh.len() as int) + fresh@,
{
    let n = window.len();
    let k = fresh.len();
    let ghost orig = window@;
    let mut i: usize = 0;
    while i < n - k
        invariant
            n == orig.len(),
            k <= n,
            i <= n - k,
            window@.len() == n,
            forall|j: int| 0 <= j < i ==> #[trigger] window@[j] == orig[j + k],
            forall|j: int| i <= j < n ==> #[trigger] window@[j] == orig[j],
        decreases n - k - i,
    {
        let x = window[i + k];
        window[i] = x;
        i = i + 1;
    }
    let mut j: usize = 0;
    while j < k
        invariant
            n == orig.len(),
            k <= n,
            k == fresh@.len(),
            j <= k,
            window@.len() == n,
            forall|m: int| 0 <= m < n - k ==> #[trigger] window@[m] == orig[m + k],
            forall|m: int| 0 <= m < j ==> #[trigger] window@[n - k + m] == fresh@[m],
        decreases k - j,
    {
        window[n - k + j] = fresh[j];
        j = j + 1;
    }
    assert(window@ =~= orig.skip(k as int) + fresh@) by {
        assert forall|m: int| n - k <= m < n implies window@[m] == fresh@[m - (n - k)] by {
            assert(window@[n - k + (m - (n - k))] == fresh@[m - (n - k)]);
        }
    }
}

/// `buf` shifted left by `n` with `n` copies of `zero` appended: the tail
/// of an overlap-add buffer after its first `n` samples were emitted.
pub fn slide_out<T: Copy>(buf: &mut Vec<T>, n: usize, zero: T)
    requires
        n <= old(buf).len(),
    ensures
        final(buf)@ == old(buf)@.skip(n as int) + Seq::new(n as nat, |_i: int| zero),
{
    let len = buf.len();
    let ghost orig = buf@;
    let mut i: usize = 0;
    while i < len - n
        invariant
            len == orig.len(),
            n <= len,
            i <= len - n,
            buf@.len() == len,
            forall|j: int| 0 <= j < i ==> #[trigger] buf@[j] == orig[j + n],
            forall|j: int| i <= j < len ==> #[trigger] buf@[j] == orig[j],
        decreases len - n - i,
    {
        let x = buf[i + n];
        buf[i] = x;
        i = i + 1;
    }
    let mut j: usize = len - n;
    while j < len
        invariant
            len == orig.len(),
            n <= len,
            len - n <= j <= len,
            buf@.len() == len,
            forall|m: int| 0 <= m < len - n ==> #[trigger] buf@[m] == orig[m + n],
            forall|m: int| len - n <= m < j ==> #[trigger] buf@[m] == zero,
        decreases len - j,
    {
        buf[j] = zero;
        j = j + 1;
    }
    assert(buf@ =~= orig.skip(n as int) + Seq::new(n as nat, |_i: int| zero));
}

/// A copy of the first `n` elements of `v`.
pub fn take_front<T: Copy>(v: &[T], n: usize) -> (r: Vec<T>)
    requires
        n <= v.len(),
    ensures
        r@ == v@.take(n as int),
{
    let mut r: Vec<T> = Vec::with_capacity(n);
    let mut i: usize = 0;
    while i < n
        invariant
            n <= v.len(),
            i <= n,
            r@ == v@.take(i as int),
        decreases n - i,
    {
        r.push(v[i]);
        i = i + 1;
        assert(r@ =~= v@.take(i as int));
    }
    r
}

/// A copy of `v`.
pub fn copy_frame<T: Copy>(v: &[T]) -> (r: Vec<T>)
    ensures
        r@ == v@,
{
    let r = take_front(v, v.len());
    assert(v@.take(v@.len() as int) =~= v@);
    r
}

/// Complex bins `(re, im)` laid out as `re0, im0, re1, im1, ...`.
pub open spec fn interleaved<T>(pairs: Seq<(T, T)>) -> Seq<T> {
    Seq::new(2 * pairs.len(), |j: int| if j % 2 == 0 { pairs[j / 2].0 } else { pairs[j / 2].1 })
}

/// The first `n` complex bins read back from an interleaved buffer.
pub open spec fn pairs_of<T>(flat: Seq<T>, n: nat) -> Seq<(T, T)> {
    Seq::new(n, |i: int| (flat[2 * i], flat[2 * i + 1]))
}

/// Lays complex bins out as `re, im` pairs in one flat buffer, the layout
/// the enhancement models take.
pub fn interleave<T: Copy>(pairs: &[(T, T)]) -> (r: Vec<T>)
    requires
        2 * pairs.len() <= usize::MAX,
    ensures
        r@ == interleaved(pairs@),
{
    let n = pairs.len();
    let mut r: Vec<T> = Vec::with_capacity(2 * n);
    let mut i: usize = 0;
    while i < n
        invariant
            n == pairs@.len(),
            2 * n <= usize::MAX,
            i <= n,
            r@.len() == 2 * i,
            forall|j: int| 0 <= j < 2 * i ==> #[trigger] r@[j] == interleaved(pairs@)[j],
        decreases n - i,
    {
        let (re, im) = pairs[i];
        r.push(re);
        r.push(im);
        proof {
            assert forall|j: int| 0 <= j < 2 * (i + 1) implies #[trigger] r@[j] == interleaved(pairs@)[j] by {
                if j >= 2 * i {
                    assert((2 * i) / 2 == i as int && (2 * i) % 2 == 0) by (nonlinear_arith);
                    assert((2 * i + 1) / 2 == i as int && (2 * i + 1) % 2 == 1) by (nonlinear_arith);
                }
            }
        }
        i = i + 1;
    }
    assert(r@ =~= interleaved(pairs@));
    r
}

/// Reads `n` complex bins back from a flat `re, im, ...` buffer.
pub fn deinterleave<T: Copy>(flat: &[T], n: usize) -> (r: Vec<(T, T)>)
    requires
        2 * n <= flat.len(),
    ensures
        r@ == pairs_of(flat@, n as nat),
{
    let mut r: Vec<(T, T)> = Vec::with_capacity(n);
    let mut i: usize = 0;
    while i < n
        invariant
            2 * n <= flat.len(),
            i <= n,
            r@ == pairs_of(flat@, i as nat),
        decreases n - i,
    {
        r.push((flat[2 * i], flat[2 * i + 1]));
        i = i + 1;
        assert(r@ =~= pairs_of(flat@, i as nat));
    }
    r
}

/// Reading back what was interleaved gives back the same bins.
pub proof fn lemma_deinterleave_interleaved<T>(pairs: Seq<(T, T)>)
    ensures
        pairs_of(interleaved(pairs), pairs.len()) == pairs,
{
    assert forall|i: int| 0 <= i < pairs.len() implies #[trigger] pairs_of(interleaved(pairs), pairs.len())[i] == pairs[i] by {
        assert((2 * i) / 2 == i && (2 * i) % 2 == 0) by (nonlinear_arith);
        assert((2 * i + 1) / 2 == i && (2 * i + 1) % 2 == 1) by (nonlinear_arith);
    }
    assert(pairs_of(interleaved(pairs), pairs.len()) =~= pairs);
}

} // verus!
