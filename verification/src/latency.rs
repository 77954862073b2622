//! The delay between a sample going into a channel and its rendering
//! coming out.
//!
//! One call of a channel, as the plugin makes it for each input sample,
//! goes through `ChannelCore` in this order: `push_input` (a completed hop
//! is offered with `submit`), any number of `collect`s (each answer goes
//! through `accept_answer`), `drain_ready` (each frame it hands out is
//! rendered into one hop of output with `begin_render` and `emit`), and
//! `next_output`. The functions here follow the views those functions'
//! contracts speak of. A frame's rendering is taken to be its answer's own
//! samples: what the rendering computes from them is floating point work,
//! but it emits exactly one hop per frame, in order, so the timing is the
//! same for any rendering.

use vstd::prelude::*;
use crate::{HOP, LOOKAHEAD, REPORTED_LATENCY};
use crate::framing::flatten;
use crate::pending::{PendingFrame, is_waiting};

verus! {

/// Samples pending in the framer, the previous hop (the dry delay line),
/// the rendered samples of the queued frames, and rendered samples not yet
/// handed out.
pub type ChannelModel<T> = (Seq<T>, Seq<T>, Seq<Seq<T>>, Seq<T>);

/// `n` samples of `silence`.
pub open spec fn silence_run<T>(n: nat, silence: T) -> Seq<T> {
    Seq::new(n, |_i: int| silence)
}

/// The samples of silence a fresh channel's output starts with.
pub open spec fn output_lead() -> nat {
    (REPORTED_LATENCY - HOP) as nat
}

/// The state of a fresh channel, as `ChannelCore::new(silence)` makes it.
pub open spec fn fresh_channel<T>(silence: T) -> ChannelModel<T> {
    (Seq::empty(), silence_run(HOP as nat, silence), Seq::empty(), silence_run(output_lead(), silence))
}

/// The numbers of frames `drain_ready` may hand out of a queue of `queued`
/// frames: none, or as many as leave `LOOKAHEAD` or more behind.
pub open spec fn drain_allowed(queued: nat, k: nat) -> bool {
    k <= queued && (k == 0 || queued - k >= LOOKAHEAD)
}

/// The number of frames `drain_ready` hands out of a queue of `queued`
/// frames that are all answered.
pub open spec fn released_when_answered(queued: nat) -> nat {
    if queued > LOOKAHEAD { (queued - LOOKAHEAD) as nat } else { 0 }
}

/// What `drain_ready` promises of the count it hands out is `drain_allowed`;
/// when no queued frame waits for an answer, the count is exactly
/// `released_when_answered`.
pub proof fn lemma_drain_count<T, E>(s: Seq<PendingFrame<T, E>>, k: nat)
    requires
        k <= s.len(),
        k == 0 || s.len() - k >= LOOKAHEAD,
    ensures
        drain_allowed(s.len(), k),
        (forall|i: int| 0 <= i < s.len() ==> !is_waiting(#[trigger] s[i])) && (s.len() - k <= LOOKAHEAD || is_waiting(
            s[k as int],
        )) ==> k == released_when_answered(s.len()),
{
}

// ---------------------------------------------------------------------------
// Any answers: the silent lead

/// The output side of one call: whatever the call rendered (`appended`)
/// goes behind what is queued, then the oldest sample is handed out, or
/// `silence` when there is none.
pub open spec fn output_call<T>(out: Seq<T>, appended: Seq<T>, silence: T) -> (Seq<T>, T) {
    let o = out + appended;
    if o.len() > 0 { (o.drop_first(), o[0]) } else { (o, silence) }
}

/// The output side of a run of calls, call `c` rendering `appended[c]`.
pub open spec fn output_run<T>(out: Seq<T>, appended: Seq<Seq<T>>, silence: T) -> (Seq<T>, Seq<T>)
    decreases appended.len(),
{
    if appended.len() == 0 {
        (out, Seq::empty())
    } else {
        let (o1, ys) = output_run(out, appended.drop_last(), silence);
        let (o2, y) = output_call(o1, appended.last(), silence);
        (o2, ys.push(y))
    }
}

/// One call's output composes as `output_call`: the contracts of
/// `push_input`, `submit`, `collect`, `accept_answer`, `drain_ready` and
/// `event_step` leave the output as it was, `begin_render` and `emit` only
/// append to it (together, `appended`), and `next_output` hands out the
/// oldest sample or `silence`.
pub proof fn lemma_call_output_composes<T>(out0: Seq<T>, appended: Seq<T>, out1: Seq<T>, silence: T, y: T, out2: Seq<T>)
    requires
        out1 == out0 + appended,
        out1.len() > 0 ==> (y == out1[0] && out2 == out1.drop_first()),
        out1.len() == 0 ==> (y == silence && out2 == out1),
    ensures
        output_call(out0, appended, silence) == (out2, y),
{
}

proof fn lemma_lead_kept<T>(appended: Seq<Seq<T>>, silence: T)
    requires
        appended.len() <= output_lead(),
    ensures
        ({
            let (o, ys) = output_run(silence_run(output_lead(), silence), appended, silence);
            &&& o.len() >= output_lead() - appended.len()
            &&& forall|i: int| 0 <= i < output_lead() - appended.len() ==> #[trigger] o[i] == silence
            &&& ys.len() == appended.len()
            &&& forall|c: int| 0 <= c < appended.len() ==> #[trigger] ys[c] == silence
        }),
    decreases appended.len(),
{
    if appended.len() > 0 {
        lemma_lead_kept(appended.drop_last(), silence);
        let (o1, ys) = output_run(silence_run(output_lead(), silence), appended.drop_last(), silence);
        let o = o1 + appended.last();
        let ys2 = output_run(silence_run(output_lead(), silence), appended, silence).1;
        assert(o[0] == o1[0]);
        assert forall|i: int| 0 <= i < output_lead() - appended.len() implies #[trigger] o.drop_first()[i] == silence by {
            assert(o.drop_first()[i] == o1[i + 1]);
        }
        assert forall|c: int| 0 <= c < appended.len() implies #[trigger] ys2[c] == silence by {
            if c < appended.len() - 1 {
                assert(ys2[c] == ys[c]);
            }
        }
    }
}

/// Nothing but silence comes out before a fresh channel's lead has been
/// handed out: whatever the worker takes and answers, whenever its answers
/// arrive and whatever is rendered, the first `REPORTED_LATENCY - HOP`
/// calls hand out `silence`.
pub proof fn lemma_silent_lead<T>(appended: Seq<Seq<T>>, silence: T)
    ensures
        output_run(silence_run(output_lead(), silence), appended, silence).1.len() == appended.len(),
        forall|c: int| 0 <= c < appended.len() && c < output_lead() ==> #[trigger] output_run(
            silence_run(output_lead(), silence),
            appended,
            silence,
        ).1[c] == silence,
    decreases appended.len(),
{
    if appended.len() > output_lead() {
        lemma_silent_lead(appended.drop_last(), silence);
        let ys = output_run(silence_run(output_lead(), silence), appended.drop_last(), silence).1;
        let ys2 = output_run(silence_run(output_lead(), silence), appended, silence).1;
        assert forall|c: int| 0 <= c < appended.len() && c < output_lead() implies #[trigger] ys2[c] == silence by {
            assert(ys2[c] == ys[c]);
        }
    } else {
        lemma_lead_kept(appended, silence);
    }
}

// ---------------------------------------------------------------------------
// A worker that refuses every frame: the exact delay

/// One call in which the worker refuses the completed hop: the hop's frame
/// is queued answered with the previous hop, the hop becomes the previous
/// hop, every frame the lookahead lets go is rendered, and one sample is
/// handed out.
pub open spec fn refused_call<T>(s: ChannelModel<T>, x: T, silence: T) -> (ChannelModel<T>, T) {
    let next = s.0.push(x);
    let full = next.len() == HOP;
    let p1 = if full { Seq::<T>::empty() } else { next };
    let prev1 = if full { next } else { s.1 };
    let q1 = if full { s.2.push(s.1) } else { s.2 };
    let k = released_when_answered(q1.len());
    let q2 = q1.skip(k as int);
    let (out2, y) = output_call(s.3, flatten(q1.take(k as int)), silence);
    ((p1, prev1, q2, out2), y)
}

/// Calls with inputs `xs`, the worker refusing every hop.
pub open spec fn refused_run<T>(s: ChannelModel<T>, xs: Seq<T>, silence: T) -> (ChannelModel<T>, Seq<T>)
    decreases xs.len(),
{
    if xs.len() == 0 {
        (s, Seq::empty())
    } else {
        let (s1, ys) = refused_run(s, xs.drop_last(), silence);
        let (s2, y) = refused_call(s1, xs.last(), silence);
        (s2, ys.push(y))
    }
}

/// The input delayed by `REPORTED_LATENCY` samples of `silence`.
pub open spec fn delayed_input<T>(xs: Seq<T>, silence: T) -> Seq<T> {
    silence_run(REPORTED_LATENCY as nat, silence) + xs
}

proof fn lemma_flatten_append<T>(a: Seq<Seq<T>>, b: Seq<Seq<T>>)
    ensures
        flatten(a + b) == flatten(a) + flatten(b),
    decreases b.len(),
{
    if b.len() == 0 {
        assert(a + b =~= a);
        assert(flatten(a) + flatten(b) =~= flatten(a));
    } else {
        lemma_flatten_append(a, b.drop_last());
        assert((a + b).drop_last() =~= a + b.drop_last());
        assert((a + b).last() == b.last());
        assert(flatten(a) + flatten(b) =~= flatten(a) + flatten(b.drop_last()) + b.last());
    }
}

proof fn lemma_flatten_len<T>(a: Seq<Seq<T>>)
    requires
        forall|j: int| 0 <= j < a.len() ==> (#[trigger] a[j]).len() == HOP,
    ensures
        flatten(a).len() == a.len() * HOP,
    decreases a.len(),
{
    if a.len() > 0 {
        let b = a.drop_last();
        assert forall|j: int| 0 <= j < b.len() implies (#[trigger] b[j]).len() == HOP by {
            assert(b[j] == a[j]);
        }
        lemma_flatten_len(b);
    }
}

/// What the channel holds after the calls on input `xs`.
spec fn refused_inv<T>(xs: Seq<T>, s: ChannelModel<T>, ys: Seq<T>, silence: T) -> bool {
    let n = xs.len() as int;
    let l = REPORTED_LATENCY as int;
    let cut: int = n / (HOP as int);
    let r: int = if cut > LOOKAHEAD { cut - LOOKAHEAD } else { 0 };
    &&& s.3 + flatten(s.2) + s.1 + s.0 == delayed_input(xs, silence).subrange(n, n + l)
    &&& s.0.len() == n % (HOP as int)
    &&& s.1.len() == HOP
    &&& s.2.len() == cut - r
    &&& forall|j: int| 0 <= j < s.2.len() ==> (#[trigger] s.2[j]).len() == HOP
    &&& s.3.len() == output_lead() + r * HOP - n
    &&& ys.len() == n
    &&& forall|c: int| 0 <= c < n ==> #[trigger] ys[c] == delayed_input(xs, silence)[c]
}

#[verifier::rlimit(60)]
proof fn lemma_refused_inv<T>(xs: Seq<T>, silence: T)
    ensures
        refused_inv(xs, refused_run(fresh_channel(silence), xs, silence).0, refused_run(fresh_channel(silence), xs, silence).1, silence),
    decreases xs.len(),
{
    let (s2, ys2) = refused_run(fresh_channel(silence), xs, silence);
    let l = REPORTED_LATENCY as int;
    if xs.len() == 0 {
        let f = fresh_channel(silence);
        assert(f.3 + flatten(f.2) + f.1 + f.0 =~= delayed_input(xs, silence).subrange(0, l));
    } else {
        let prev = xs.drop_last();
        lemma_refused_inv(prev, silence);
        let (s, ys) = refused_run(fresh_channel(silence), prev, silence);
        let x = xs.last();
        let n = prev.len() as int;
        let cut: int = n / (HOP as int);
        let r: int = if cut > LOOKAHEAD { cut - LOOKAHEAD } else { 0 };
        let next = s.0.push(x);
        let full = next.len() == HOP;
        let p1 = if full { Seq::<T>::empty() } else { next };
        let prev1 = if full { next } else { s.1 };
        let q1 = if full { s.2.push(s.1) } else { s.2 };
        let k = released_when_answered(q1.len());
        let q2 = q1.skip(k as int);
        let taken = q1.take(k as int);
        let out1 = s.3 + flatten(taken);
        let n1 = n + 1;
        let cut1: int = n1 / (HOP as int);
        let r1: int = if cut1 > LOOKAHEAD { cut1 - LOOKAHEAD } else { 0 };
        let dprev = delayed_input(prev, silence);
        let d = delayed_input(xs, silence);
        assert(dprev.subrange(n, n + l) =~= d.subrange(n, n + l));
        assert(d[n + l] == x);
        assert(d.subrange(n, n + l).push(x) =~= d.subrange(n, n1 + l));
        assert forall|j: int| 0 <= j < q1.len() implies (#[trigger] q1[j]).len() == HOP by {
            if j < s.2.len() {
                assert(q1[j] == s.2[j]);
            }
        }
        assert(flatten(q1) + prev1 + p1 =~= flatten(s.2) + s.1 + s.0.push(x)) by {
            if full {
                assert(q1.drop_last() =~= s.2);
                assert(flatten(q1) =~= flatten(s.2) + s.1);
                assert(flatten(s.2) + s.1 + next + Seq::<T>::empty() =~= flatten(s.2) + s.1 + s.0.push(x));
            } else {
                assert(flatten(s.2) + s.1 + next =~= flatten(s.2) + s.1 + s.0.push(x));
            }
        }
        lemma_flatten_append(taken, q2);
        assert(taken + q2 =~= q1);
        assert(out1 + flatten(q2) + prev1 + p1 =~= d.subrange(n, n1 + l)) by {
            assert(out1 + flatten(q2) + prev1 + p1 =~= s.3 + (flatten(taken) + flatten(q2)) + prev1 + p1);
            assert(s.3 + flatten(q1) + prev1 + p1 =~= s.3 + (flatten(q1) + prev1 + p1));
            assert(s.3 + (flatten(s.2) + s.1 + s.0.push(x)) =~= (s.3 + flatten(s.2) + s.1 + s.0).push(x));
        }
        assert forall|j: int| 0 <= j < taken.len() implies (#[trigger] taken[j]).len() == HOP by {
            assert(taken[j] == q1[j]);
        }
        lemma_flatten_len(taken);
        assert(r1 == r + k);
        assert(out1.len() == output_lead() + r1 * HOP - n);
        assert(out1.len() > 0);
        assert forall|j: int| 0 <= j < q2.len() implies (#[trigger] q2[j]).len() == HOP by {
            assert(q2[j] == q1[j + k]);
        }
        assert(out1[0] == d.subrange(n, n1 + l)[0]);
        assert(s2 == (p1, prev1, q2, out1.drop_first()));
        assert(ys2 == ys.push(out1[0]));
        assert(out1.drop_first() + flatten(q2) + prev1 + p1 =~= (out1 + flatten(q2) + prev1 + p1).drop_first());
        assert(d.subrange(n, n1 + l).drop_first() =~= d.subrange(n1, n1 + l));
        assert forall|c: int| 0 <= c < n1 implies #[trigger] ys2[c] == d[c] by {
            if c < n {
                assert(ys2[c] == ys[c]);
                assert(dprev[c] == d[c]);
            }
        }
    }
}

/// With a worker that refuses every hop, the channel delays its input by
/// exactly `REPORTED_LATENCY` samples: call `c` hands out input
/// `c - REPORTED_LATENCY`, and the calls before hand out `silence`.
pub proof fn lemma_refused_delay<T>(xs: Seq<T>, silence: T)
    ensures
        refused_run(fresh_channel(silence), xs, silence).1.len() == xs.len(),
        forall|c: int| 0 <= c < xs.len() ==> #[trigger] refused_run(fresh_channel(silence), xs, silence).1[c] == if c
            < REPORTED_LATENCY {
            silence
        } else {
            xs[c - REPORTED_LATENCY]
        },
{
    lemma_refused_inv(xs, silence);
    assert forall|c: int| 0 <= c < xs.len() implies #[trigger] refused_run(fresh_channel(silence), xs, silence).1[c] == if c
        < REPORTED_LATENCY {
        silence
    } else {
        xs[c - REPORTED_LATENCY]
    } by {
        assert(delayed_input(xs, silence)[c] == if c < REPORTED_LATENCY { silence } else { xs[c - REPORTED_LATENCY] });
    }
}

/// The samples a queued frame is rendered from: its answer.
pub open spec fn rendered_from<T, E>(f: PendingFrame<T, E>) -> Seq<T> {
    match f.enhanced {
        Some(e) => e@,
        None => Seq::empty(),
    }
}

/// The model state of a channel whose queued frames are all answered.
pub open spec fn answered_view<T, E>(
    pending: Seq<T>,
    previous: Seq<T>,
    queued: Seq<PendingFrame<T, E>>,
    output: Seq<T>,
) -> ChannelModel<T> {
    (pending, previous, queued.map_values(|f: PendingFrame<T, E>| rendered_from(f)), output)
}

/// One call of a channel whose worker refuses the hop it is offered,
/// composed from the contracts of `ChannelCore`: `push_input` turns the
/// pending input `p0` into `p1` and maybe a hop; `submit`, refused, queues
/// a frame answered with the previous hop `v0` and makes the hop the
/// previous hop `v1` (`q0` to `q1`); `drain_ready` hands out `released` and
/// leaves `q2`; each released frame's answer is emitted (`out0` to `out1`);
/// `next_output` hands out `y` and leaves `out2`. The result is
/// `refused_call` on the model.
pub proof fn lemma_refused_call_composes<T, E>(
    p0: Seq<T>,
    v0: Seq<T>,
    q0: Seq<PendingFrame<T, E>>,
    out0: Seq<T>,
    x: T,
    silence: T,
    frame: Option<Vec<T>>,
    p1: Seq<T>,
    v1: Seq<T>,
    q1: Seq<PendingFrame<T, E>>,
    released: Seq<PendingFrame<T, E>>,
    q2: Seq<PendingFrame<T, E>>,
    out1: Seq<T>,
    y: T,
    out2: Seq<T>,
)
    requires
        forall|i: int| 0 <= i < q0.len() ==> !is_waiting(#[trigger] q0[i]),
        p0.len() + 1 == HOP ==> (frame matches Some(f) && f@ == p0.push(x) && p1 == Seq::<T>::empty()),
        p0.len() + 1 != HOP ==> (frame is None && p1 == p0.push(x)),
        frame matches Some(f) ==> {
            &&& q1.len() == q0.len() + 1
            &&& q1.drop_last() == q0
            &&& q1.last().raw@ == v0
            &&& q1.last().enhanced matches Some(e) && e@ == v0
            &&& v1 == f@
        },
        frame is None ==> (q1 == q0 && v1 == v0),
        released.len() <= q1.len(),
        released == q1.take(released.len() as int),
        q2 == q1.skip(released.len() as int),
        released.len() == 0 || q1.len() - released.len() >= LOOKAHEAD,
        q1.len() - released.len() <= LOOKAHEAD || is_waiting(q1[released.len() as int]),
        out1 == out0 + flatten(released.map_values(|f: PendingFrame<T, E>| rendered_from(f))),
        out1.len() > 0 ==> (y == out1[0] && out2 == out1.drop_first()),
        out1.len() == 0 ==> (y == silence && out2 == out1),
    ensures
        forall|i: int| 0 <= i < q2.len() ==> !is_waiting(#[trigger] q2[i]),
        refused_call(answered_view(p0, v0, q0, out0), x, silence) == (answered_view(p1, v1, q2, out2), y),
{
    let m0 = q0.map_values(|f: PendingFrame<T, E>| rendered_from(f));
    let m1 = q1.map_values(|f: PendingFrame<T, E>| rendered_from(f));
    assert forall|i: int| 0 <= i < q1.len() implies !is_waiting(#[trigger] q1[i]) by {
        if frame is Some && i < q0.len() {
            assert(q1[i] == q1.drop_last()[i]);
        }
    }
    let k = released.len();
    lemma_drain_count(q1, k);
    let next = p0.push(x);
    if next.len() == HOP {
        assert(frame is Some);
        assert(m1 =~= m0.push(v0)) by {
            assert forall|i: int| 0 <= i < q0.len() implies m1[i] == m0[i] by {
                assert(q1[i] == q1.drop_last()[i]);
            }
        }
    } else {
        assert(m1 =~= m0);
    }
    assert(released.map_values(|f: PendingFrame<T, E>| rendered_from(f)) =~= m1.take(k as int));
    assert(q2.map_values(|f: PendingFrame<T, E>| rendered_from(f)) =~= m1.skip(k as int));
    assert forall|i: int| 0 <= i < q2.len() implies !is_waiting(#[trigger] q2[i]) by {
        assert(q2[i] == q1[i + k]);
    }
}

// ---------------------------------------------------------------------------
// A worker that answers in time: when each frame's rendering comes out

/// One call in which a hop that completes is queued with `answer`, the
/// worker's answer to it, already attached; every frame the lookahead lets
/// go is rendered, and one sample is handed out.
pub open spec fn answered_call<T>(s: ChannelModel<T>, x: T, answer: Seq<T>, silence: T) -> (ChannelModel<T>, T) {
    let next = s.0.push(x);
    let full = next.len() == HOP;
    let p1 = if full { Seq::<T>::empty() } else { next };
    let prev1 = if full { next } else { s.1 };
    let q1 = if full { s.2.push(answer) } else { s.2 };
    let k = released_when_answered(q1.len());
    let q2 = q1.skip(k as int);
    let (out2, y) = output_call(s.3, flatten(q1.take(k as int)), silence);
    ((p1, prev1, q2, out2), y)
}

/// Calls with inputs `xs` in which frame `k` (the hop of inputs `480k` to
/// `480k + 479`) is answered with `answers[k]` before the lookahead would
/// release it.
pub open spec fn answered_run<T>(s: ChannelModel<T>, xs: Seq<T>, answers: Seq<Seq<T>>, silence: T) -> (ChannelModel<T>, Seq<T>)
    decreases xs.len(),
{
    if xs.len() == 0 {
        (s, Seq::empty())
    } else {
        let (s1, ys) = answered_run(s, xs.drop_last(), answers, silence);
        let (s2, y) = answered_call(s1, xs.last(), answers[(xs.len() - 1) / (HOP as int)], silence);
        (s2, ys.push(y))
    }
}

/// What comes out of a fresh channel whose frames are answered in time:
/// the lead, then each frame's answer in turn.
pub open spec fn answered_output<T>(answers: Seq<Seq<T>>, silence: T) -> Seq<T> {
    silence_run(output_lead(), silence) + flatten(answers)
}

proof fn lemma_flatten_chunk<T>(a: Seq<Seq<T>>, k: int)
    requires
        0 <= k < a.len(),
        forall|j: int| 0 <= j < a.len() ==> (#[trigger] a[j]).len() == HOP,
    ensures
        flatten(a).len() == a.len() * HOP,
        flatten(a).subrange(k * HOP, k * HOP + HOP) == a[k],
{
    lemma_flatten_len(a);
    let pre = a.take(k);
    let post = a.skip(k + 1);
    assert(a =~= pre.push(a[k]) + post);
    lemma_flatten_append(pre.push(a[k]), post);
    assert(pre.push(a[k]).drop_last() =~= pre);
    assert forall|j: int| 0 <= j < pre.len() implies (#[trigger] pre[j]).len() == HOP by {
        assert(pre[j] == a[j]);
    }
    lemma_flatten_len(pre);
    assert(flatten(a).subrange(k * HOP, k * HOP + HOP) =~= a[k]);
}

/// What the channel holds after the calls on input `xs`.
spec fn answered_inv<T>(xs: Seq<T>, answers: Seq<Seq<T>>, s: ChannelModel<T>, ys: Seq<T>, silence: T) -> bool {
    let n = xs.len() as int;
    let cut: int = n / (HOP as int);
    let r: int = if cut > LOOKAHEAD { cut - LOOKAHEAD } else { 0 };
    let stream = answered_output(answers, silence);
    &&& s.3 + flatten(s.2) == stream.subrange(n, output_lead() + cut * HOP)
    &&& s.0.len() == n % (HOP as int)
    &&& s.2.len() == cut - r
    &&& forall|j: int| 0 <= j < s.2.len() ==> (#[trigger] s.2[j]).len() == HOP
    &&& s.3.len() == output_lead() + r * HOP - n
    &&& ys.len() == n
    &&& forall|c: int| 0 <= c < n ==> #[trigger] ys[c] == stream[c]
}

#[verifier::rlimit(60)]
proof fn lemma_answered_inv<T>(xs: Seq<T>, answers: Seq<Seq<T>>, silence: T)
    requires
        xs.len() <= answers.len() * HOP,
        forall|j: int| 0 <= j < answers.len() ==> (#[trigger] answers[j]).len() == HOP,
    ensures
        answered_inv(
            xs,
            answers,
            answered_run(fresh_channel(silence), xs, answers, silence).0,
            answered_run(fresh_channel(silence), xs, answers, silence).1,
            silence,
        ),
    decreases xs.len(),
{
    let (s2, ys2) = answered_run(fresh_channel(silence), xs, answers, silence);
    let stream = answered_output(answers, silence);
    lemma_flatten_len(answers);
    if xs.len() == 0 {
        let f = fresh_channel(silence);
        assert(f.3 + flatten(f.2) =~= stream.subrange(0, output_lead() as int));
    } else {
        let prev = xs.drop_last();
        lemma_answered_inv(prev, answers, silence);
        let (s, ys) = answered_run(fresh_channel(silence), prev, answers, silence);
        let x = xs.last();
        let n = prev.len() as int;
        let cut: int = n / (HOP as int);
        let r: int = if cut > LOOKAHEAD { cut - LOOKAHEAD } else { 0 };
        let answer = answers[n / (HOP as int)];
        let next = s.0.push(x);
        let full = next.len() == HOP;
        let q1 = if full { s.2.push(answer) } else { s.2 };
        let k = released_when_answered(q1.len());
        let q2 = q1.skip(k as int);
        let taken = q1.take(k as int);
        let out1 = s.3 + flatten(taken);
        let n1 = n + 1;
        let cut1: int = n1 / (HOP as int);
        let r1: int = if cut1 > LOOKAHEAD { cut1 - LOOKAHEAD } else { 0 };
        assert forall|j: int| 0 <= j < q1.len() implies (#[trigger] q1[j]).len() == HOP by {
            if j < s.2.len() {
                assert(q1[j] == s.2[j]);
            }
        }
        assert(s.3 + flatten(q1) =~= stream.subrange(n, output_lead() + cut1 * HOP)) by {
            if full {
                assert(cut < answers.len());
                lemma_flatten_chunk(answers, cut);
                assert(stream.subrange(output_lead() + cut * HOP, output_lead() + cut * HOP + HOP) =~= flatten(
                    answers,
                ).subrange(cut * HOP, cut * HOP + HOP));
                assert(q1.drop_last() =~= s.2);
                assert(flatten(q1) =~= flatten(s.2) + answer);
                assert(s.3 + flatten(q1) =~= (s.3 + flatten(s.2)) + answer);
            }
        }
        lemma_flatten_append(taken, q2);
        assert(taken + q2 =~= q1);
        assert(out1 + flatten(q2) =~= s.3 + flatten(q1));
        assert forall|j: int| 0 <= j < taken.len() implies (#[trigger] taken[j]).len() == HOP by {
            assert(taken[j] == q1[j]);
        }
        lemma_flatten_len(taken);
        assert(r1 == r + k);
        assert(out1.len() == output_lead() + r1 * HOP - n);
        assert(out1.len() > 0);
        assert forall|j: int| 0 <= j < q2.len() implies (#[trigger] q2[j]).len() == HOP by {
            assert(q2[j] == q1[j + k]);
        }
        let lim = output_lead() + cut1 * HOP;
        assert(cut1 <= answers.len()) by (nonlinear_arith)
            requires
                n1 <= answers.len() * 480,
                cut1 == n1 / 480,
        ;
        assert(lim <= stream.len());
        assert((out1 + flatten(q2)).len() == lim - n);
        assert((out1 + flatten(q2))[0] == out1[0]);
        assert(stream.subrange(n, lim)[0] == stream[n]);
        assert(out1[0] == stream[n]);
        assert(ys2 == ys.push(out1[0]));
        assert(out1.drop_first() + flatten(q2) =~= (out1 + flatten(q2)).drop_first());
        assert(stream.subrange(n, output_lead() + cut1 * HOP).drop_first() =~= stream.subrange(n1, output_lead() + cut1 * HOP));
        assert forall|c: int| 0 <= c < n1 implies #[trigger] ys2[c] == stream[c] by {
            if c < n {
                assert(ys2[c] == ys[c]);
            }
        }
    }
}

/// With every frame answered before the lookahead would release it, each
/// frame's rendering comes out `REPORTED_LATENCY - HOP` calls after the
/// frame began: frame `k`'s answer is handed out at calls `480k + 2400` to
/// `480k + 2879`, one sample per call, and the calls before the first
/// hand out `silence`.
pub proof fn lemma_answered_delay<T>(xs: Seq<T>, answers: Seq<Seq<T>>, silence: T)
    requires
        xs.len() <= answers.len() * HOP,
        forall|j: int| 0 <= j < answers.len() ==> (#[trigger] answers[j]).len() == HOP,
    ensures
        answered_run(fresh_channel(silence), xs, answers, silence).1.len() == xs.len(),
        forall|c: int| 0 <= c < xs.len() && c < output_lead() ==> #[trigger] answered_run(fresh_channel(silence), xs, answers, silence).1[c] == silence,
        forall|k: int, j: int|
            0 <= k && 0 <= j < HOP && output_lead() + k * HOP + j < xs.len() ==> #[trigger] answered_run(
                fresh_channel(silence),
                xs,
                answers,
                silence,
            ).1[output_lead() + k * HOP + j] == #[trigger] answers[k][j],
{
    lemma_answered_inv(xs, answers, silence);
    let ys = answered_run(fresh_channel(silence), xs, answers, silence).1;
    let stream = answered_output(answers, silence);
    assert forall|k: int, j: int|
        0 <= k && 0 <= j < HOP && output_lead() + k * HOP + j < xs.len() implies #[trigger] ys[output_lead() + k * HOP + j] == #[trigger] answers[k][j] by {
        assert(k * HOP + j < answers.len() * HOP);
        assert(k < answers.len()) by (nonlinear_arith)
            requires
                k * 480 + j < answers.len() * 480,
                0 <= j,
                0 <= k,
        ;
        lemma_flatten_chunk(answers, k);
        assert(flatten(answers).subrange(k * HOP, k * HOP + HOP)[j] == flatten(answers)[k * HOP + j]);
        assert(stream[output_lead() + k * HOP + j] == flatten(answers)[k * HOP + j]);
    }
}

/// The numbers: the lead is five hops, and the whole delay six hops, which
/// is 60 ms at 48 kHz.
pub proof fn lemma_delay_values()
    ensures
        output_lead() == (LOOKAHEAD + 1) * HOP,
        REPORTED_LATENCY == output_lead() + HOP,
        REPORTED_LATENCY as int * 1000 == 60 * 48_000,
{
}

} // verus!
