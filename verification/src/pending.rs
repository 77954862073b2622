//! The lookahead queue: frames wait here, in the order they were cut, until
//! the enhancer has answered them and enough newer frames stand behind them.

use vstd::prelude::*;
use crate::LOOKAHEAD;

verus! {

/// One hop of input on its way through the lookahead queue.
pub struct PendingFrame<T, E> {
    /// The dry input samples.
    pub raw: Vec<T>,
    /// The enhancer's answer; `None` while it is still outstanding.
    pub enhanced: Option<Vec<T>>,
    /// What the event analysis said about the frame.
    pub event: E,
}

/// The frame still waits for the enhancer.
pub open spec fn is_waiting<T, E>(f: PendingFrame<T, E>) -> bool {
    f.enhanced is None
}

/// How many of the first `i` frames of `s` still wait for the enhancer.
pub open spec fn waiting_before<T, E>(s: Seq<PendingFrame<T, E>>, i: int) -> nat
    decreases i,
{
    if i <= 0 {
        0
    } else {
        waiting_before(s, i - 1) + if is_waiting(s[i - 1]) { 1nat } else { 0nat }
    }
}

/// `f` with the enhancer's answer `result` attached.
pub open spec fn answered<T, E>(f: PendingFrame<T, E>, result: Vec<T>) -> PendingFrame<T, E> {
    PendingFrame { raw: f.raw, enhanced: Some(result), event: f.event }
}

/// `i` is the oldest frame of `s` that still waits.
pub open spec fn is_first_waiting<T, E>(s: Seq<PendingFrame<T, E>>, i: int) -> bool {
    0 <= i < s.len() && is_waiting(s[i]) && waiting_before(s, i) == 0
}

/// The queue after an answer of the enhancer arrives: it goes to the oldest
/// waiting frame; with no frame waiting it is dropped.
pub open spec fn deliver_spec<T, E>(s: Seq<PendingFrame<T, E>>, result: Vec<T>) -> Seq<PendingFrame<T, E>> {
    if exists|i: int| is_first_waiting(s, i) {
        let i = choose|i: int| is_first_waiting(s, i);
        s.update(i, answered(s[i], result))
    } else {
        s
    }
}

/// Fewer frames wait before a later position than before an earlier one.
pub proof fn lemma_waiting_before_monotone<T, E>(s: Seq<PendingFrame<T, E>>, i: int, j: int)
    requires
        i <= j,
    ensures
        waiting_before(s, i) <= waiting_before(s, j),
    decreases j - i,
{
    if i < j {
        lemma_waiting_before_monotone(s, i, j - 1);
    }
}

/// There is at most one oldest waiting frame.
pub proof fn lemma_first_waiting_unique<T, E>(s: Seq<PendingFrame<T, E>>, i: int, j: int)
    requires
        is_first_waiting(s, i),
        is_first_waiting(s, j),
    ensures
        i == j,
{
    if i < j {
        lemma_waiting_before_monotone(s, i + 1, j);
    } else if j < i {
        lemma_waiting_before_monotone(s, j + 1, i);
    }
}

/// One more position counts one more waiting frame exactly when that frame waits.
proof fn lemma_waiting_step<T, E>(s: Seq<PendingFrame<T, E>>, i: int)
    requires
        0 <= i,
    ensures
        waiting_before(s, i + 1) == waiting_before(s, i) + if is_waiting(s[i]) { 1nat } else { 0nat },
{
}

/// An arriving answer changes no frame's samples, event or place in the
/// queue, and never replaces an answer already attached.
pub proof fn lemma_deliver_keeps_frames<T, E>(s: Seq<PendingFrame<T, E>>, result: Vec<T>)
    ensures
        deliver_spec(s, result).len() == s.len(),
        forall|i: int| 0 <= i < s.len() ==> {
            &&& (#[trigger] deliver_spec(s, result)[i]).raw == s[i].raw
            &&& deliver_spec(s, result)[i].event == s[i].event
            &&& !is_waiting(s[i]) ==> deliver_spec(s, result)[i] == s[i]
        },
{
}

/// The queue after the answers `results` arrived one after another.
pub open spec fn deliver_all<T, E>(s: Seq<PendingFrame<T, E>>, results: Seq<Vec<T>>) -> Seq<PendingFrame<T, E>>
    decreases results.len(),
{
    if results.len() == 0 {
        s
    } else {
        deliver_spec(deliver_all(s, results.drop_last()), results.last())
    }
}

/// Frame `i` of `s` once `results` have arrived: a waiting frame with `k`
/// waiting frames before it holds the `k`-th answer, if that many arrived.
pub open spec fn paired<T, E>(s: Seq<PendingFrame<T, E>>, results: Seq<Vec<T>>, i: int) -> PendingFrame<T, E> {
    if is_waiting(s[i]) && waiting_before(s, i) < results.len() {
        answered(s[i], results[waiting_before(s, i) as int])
    } else {
        s[i]
    }
}

proof fn lemma_waiting_after_answers<T, E>(s: Seq<PendingFrame<T, E>>, results: Seq<Vec<T>>, i: int)
    requires
        0 <= i <= s.len(),
    ensures
        waiting_before(Seq::new(s.len(), |j: int| paired(s, results, j)), i) == if waiting_before(s, i) >= results.len() {
            waiting_before(s, i) - results.len()
        } else {
            0
        },
    decreases i,
{
    if i > 0 {
        lemma_waiting_after_answers(s, results, i - 1);
    }
}

/// Answers pair with frames in the order the frames were cut: the `k`-th
/// answer to arrive goes to the `k`-th oldest waiting frame, frames already
/// answered keep their answer, and answers beyond the waiting frames are
/// dropped.
pub proof fn lemma_answers_pair_in_order<T, E>(s: Seq<PendingFrame<T, E>>, results: Seq<Vec<T>>)
    ensures
        deliver_all(s, results) == Seq::new(s.len(), |i: int| paired(s, results, i)),
    decreases results.len(),
{
    if results.len() == 0 {
        assert(deliver_all(s, results) =~= Seq::new(s.len(), |i: int| paired(s, results, i)));
    } else {
        let rs = results.drop_last();
        let m = rs.len();
        lemma_answers_pair_in_order(s, rs);
        let t = Seq::new(s.len(), |i: int| paired(s, rs, i));
        let goal = Seq::new(s.len(), |i: int| paired(s, results, i));
        assert forall|i: int| 0 <= i < s.len() implies #[trigger] is_first_waiting(t, i) <==> (is_waiting(s[i]) && waiting_before(s, i) == m) by {
            lemma_waiting_after_answers(s, rs, i);
        }
        if exists|i: int| is_first_waiting(t, i) {
            let i0 = choose|i: int| is_first_waiting(t, i);
            assert forall|i: int| 0 <= i < s.len() implies #[trigger] goal[i] == t.update(i0, answered(t[i0], results.last()))[i] by {
                if is_waiting(s[i]) && waiting_before(s, i) == m {
                    assert(is_first_waiting(t, i));
                    lemma_first_waiting_unique(t, i, i0);
                }
            }
            assert(deliver_all(s, results) =~= goal);
        } else {
            assert forall|i: int| 0 <= i < s.len() implies #[trigger] goal[i] == t[i] by {
                if is_waiting(s[i]) && waiting_before(s, i) == m {
                    assert(is_first_waiting(t, i));
                }
            }
            assert(deliver_all(s, results) =~= goal);
        }
    }
}

/// Frames awaiting rendering, oldest first.
pub struct PendingQueue<T, E> {
    frames: Vec<PendingFrame<T, E>>,
}

impl<T, E> PendingQueue<T, E> {
    /// The queued frames, oldest first.
    pub closed spec fn frames(&self) -> Seq<PendingFrame<T, E>> {
        self.frames@
    }

    /// An empty queue.
    pub fn new() -> (r: Self)
        ensures
            r.frames() == Seq::<PendingFrame<T, E>>::empty(),
    {
        PendingQueue { frames: Vec::new() }
    }

    /// The number of queued frames.
    pub fn len(&self) -> (r: usize)
        ensures
            r == self.frames().len(),
    {
        self.frames.len()
    }

    /// Queues a freshly cut frame. A frame that the enhancer accepted waits
    /// for its answer; one it refused carries its own dry samples as answer.
    pub fn enqueue(&mut self, raw: Vec<T>, submitted: bool, event: E)
        where T: Copy,
        ensures
            final(self).frames().len() == old(self).frames().len() + 1,
            final(self).frames().drop_last() == old(self).frames(),
            final(self).frames().last().raw == raw,
            final(self).frames().last().event == event,
            submitted ==> final(self).frames().last().enhanced is None,
            !submitted ==> (final(self).frames().last().enhanced matches Some(e) && e@ == raw@),
    {
        let enhanced = if submitted {
            None
        } else {
            Some(crate::framing::copy_frame(raw.as_slice()))
        };
        self.frames.push(PendingFrame { raw, enhanced, event });
        assert(self.frames@.drop_last() =~= old(self).frames@);
    }

    /// Attaches an answer of the enhancer to the oldest waiting frame and
    /// says whether one was waiting; with none waiting the answer is dropped.
    pub fn deliver(&mut self, result: Vec<T>) -> (r: bool)
        ensures
            r == exists|i: int| is_first_waiting(old(self).frames(), i),
            final(self).frames() == deliver_spec(old(self).frames(), result),
    {
        let n = self.frames.len();
        let ghost s = self.frames@;
        let mut i: usize = 0;
        while i < n
            invariant
                n == s.len(),
                s == self.frames@,
                s == old(self).frames@,
                i <= n,
                waiting_before(s, i as int) == 0,
            decreases n - i,
        {
            if self.frames[i].enhanced.is_none() {
                let f = self.frames.remove(i);
                let PendingFrame { raw, enhanced: _, event } = f;
                self.frames.insert(i, PendingFrame { raw, enhanced: Some(result), event });
                proof {
                    assert(is_first_waiting(s, i as int));
                    assert(is_first_waiting(old(self).frames(), i as int));
                    assert forall|j: int| is_first_waiting(s, j) implies j == i by {
                        lemma_first_waiting_unique(s, i as int, j);
                    }
                    assert(self.frames@ =~= s.update(i as int, answered(s[i as int], result)));
                }
                return true;
            }
            proof {
                lemma_waiting_step(s, i as int);
            }
            i = i + 1;
        }
        proof {
            assert forall|j: int| !is_first_waiting(s, j) by {
                if 0 <= j < s.len() && is_waiting(s[j]) {
                    lemma_waiting_before_monotone(s, j + 1, n as int);
                    lemma_waiting_step(s, j);
                }
            }
        }
        false
    }

    /// Takes the oldest frame for rendering, if the enhancer has answered it
    /// and more than `LOOKAHEAD` frames are queued.
    pub fn pop_ready(&mut self) -> (r: Option<PendingFrame<T, E>>)
        ensures
            ({
                let s = old(self).frames();
                if s.len() > LOOKAHEAD && !is_waiting(s[0]) {
                    &&& r == Some(s[0])
                    &&& final(self).frames() == s.drop_first()
                } else {
                    &&& r is None
                    &&& final(self).frames() == s
                }
            }),
    {
        if self.frames.len() > LOOKAHEAD && self.frames[0].enhanced.is_some() {
            let f = self.frames.remove(0);
            assert(self.frames@ =~= old(self).frames@.drop_first());
            Some(f)
        } else {
            None
        }
    }

    /// Takes every frame that may be rendered now, oldest first: frames
    /// leave while more than `LOOKAHEAD` are queued and the oldest has its
    /// answer.
    pub fn drain_ready(&mut self) -> (r: Vec<PendingFrame<T, E>>)
        ensures
            ({
                let s = old(self).frames();
                let k = r@.len() as int;
                &&& k <= s.len()
                &&& r@ == s.take(k)
                &&& final(self).frames() == s.skip(k)
                &&& forall|i: int| 0 <= i < k ==> !is_waiting(#[trigger] s[i])
                &&& (k == 0 || s.len() - k >= LOOKAHEAD)
                &&& (s.len() - k <= LOOKAHEAD || is_waiting(s[k]))
            }),
    {
        let ghost s = self.frames@;
        let mut out: Vec<PendingFrame<T, E>> = Vec::new();
        loop
            invariant
                s == old(self).frames@,
                out@.len() <= s.len(),
                out@ == s.take(out@.len() as int),
                self.frames@ == s.skip(out@.len() as int),
                forall|i: int| 0 <= i < out@.len() ==> !is_waiting(#[trigger] s[i]),
                out@.len() == 0 || s.len() - out@.len() >= LOOKAHEAD,
            ensures
                out@.len() <= s.len(),
                out@ == s.take(out@.len() as int),
                self.frames@ == s.skip(out@.len() as int),
                forall|i: int| 0 <= i < out@.len() ==> !is_waiting(#[trigger] s[i]),
                out@.len() == 0 || s.len() - out@.len() >= LOOKAHEAD,
                s.len() - out@.len() <= LOOKAHEAD || is_waiting(s[out@.len() as int]),
            decreases self.frames@.len(),
        {
            let ghost k = out@.len() as int;
            match self.pop_ready() {
                Some(f) => {
                    out.push(f);
                    assert(out@ =~= s.take(k + 1));
                    assert(s.skip(k).drop_first() =~= s.skip(k + 1));
                },
                None => {
                    proof {
                        if s.len() - k > LOOKAHEAD as int {
                            assert(s.skip(k)[0] == s[k]);
                        }
                    }
                    break;
                },
            }
        }
        out
    }
}

} // verus!
