//! What holds of whole runs of the pipeline.
use vstd::prelude::*;
use crate::error::Error;
use crate::pipeline::{Stage, Move, Outcome, fits, transition, stage_wf};

verus! {

/// The moves of a run from stage `s` that is fed the outcomes `os`, up to the
/// first outcome that the run does not wait for.
pub open spec fn run(source: Seq<char>, dir: Seq<char>, s: Stage, os: Seq<Outcome>) -> Seq<Move>
    decreases os.len(),
{
    if os.len() == 0 || !fits(s, os[0]) {
        Seq::empty()
    } else {
        let (t, m) = transition(source, dir, s, os[0]);
        seq![m] + run(source, dir, t, os.drop_first())
    }
}

/// The stage at which that run stops.
pub open spec fn stage_after(source: Seq<char>, dir: Seq<char>, s: Stage, os: Seq<Outcome>) -> Stage
    decreases os.len(),
{
    if os.len() == 0 || !fits(s, os[0]) {
        s
    } else {
        stage_after(source, dir, transition(source, dir, s, os[0]).0, os.drop_first())
    }
}

/// Whether the run waits for every one of the outcomes.
pub open spec fn fits_all(source: Seq<char>, dir: Seq<char>, s: Stage, os: Seq<Outcome>) -> bool
    decreases os.len(),
{
    os.len() == 0 || (fits(s, os[0]) && fits_all(
        source,
        dir,
        transition(source, dir, s, os[0]).0,
        os.drop_first(),
    ))
}

/// The page numbers of the deliveries among `ms`, in order.
pub open spec fn delivered(ms: Seq<Move>) -> Seq<nat>
    decreases ms.len(),
{
    if ms.len() == 0 {
        Seq::empty()
    } else {
        match ms[0] {
            Move::Deliver { page_number, .. } => seq![page_number] + delivered(ms.drop_first()),
            _ => delivered(ms.drop_first()),
        }
    }
}

/// The page indices of the rasterizer runs among `ms`, in order.
pub open spec fn rendered(ms: Seq<Move>) -> Seq<nat>
    decreases ms.len(),
{
    if ms.len() == 0 {
        Seq::empty()
    } else {
        match ms[0] {
            Move::Render { index, .. } => seq![index] + rendered(ms.drop_first()),
            _ => rendered(ms.drop_first()),
        }
    }
}

/// The page indices `lo` to `hi - 1`, in order.
pub open spec fn page_indices(lo: nat, hi: nat) -> Seq<nat> {
    Seq::new((hi - lo) as nat, |i: int| (lo + i) as nat)
}

/// Deliveries and renders of one move followed by others.
pub proof fn lemma_prepend(m: Move, rest: Seq<Move>)
    ensures
        (seq![m] + rest)[0] == m,
        (seq![m] + rest).drop_first() == rest,
        delivered(seq![m] + rest) == match m {
            Move::Deliver { page_number, .. } => seq![page_number] + delivered(rest),
            _ => delivered(rest),
        },
        rendered(seq![m] + rest) == match m {
            Move::Render { index, .. } => seq![index] + rendered(rest),
            _ => rendered(rest),
        },
{
    assert((seq![m] + rest).drop_first() == rest);
}

/// How many pages have been sent to the rasterizer on reaching stage `s`.
pub open spec fn sent_to_render(s: Stage) -> nat {
    match s {
        Stage::Rendering { index, .. } => index as nat + 1,
        Stage::Delivering { index, replay, .. } => if replay { 0 } else { index as nat + 1 },
        _ => 0,
    }
}

proof fn lemma_step_render_order(source: Seq<char>, dir: Seq<char>, s: Stage, o: Outcome)
    requires
        stage_wf(s),
        fits(s, o),
    ensures
        ({
            let (t, m) = transition(source, dir, s, o);
            &&& (t is Done || t is Failed) ==> !(m is Render)
            &&& !(t is Done || t is Failed) ==> match m {
                Move::Render { index, .. } => index == sent_to_render(s)
                    && sent_to_render(t) == sent_to_render(s) + 1,
                _ => sent_to_render(t) == sent_to_render(s),
            }
        }),
{
}

proof fn lemma_run_render_order(source: Seq<char>, dir: Seq<char>, s: Stage, os: Seq<Outcome>)
    requires
        stage_wf(s),
    ensures
        ({
            let rs = rendered(run(source, dir, s, os));
            let f = stage_after(source, dir, s, os);
            &&& forall|i: int| 0 <= i < rs.len() ==> rs[i] == sent_to_render(s) + i
            &&& (f is Rendering || f is Delivering) ==> sent_to_render(f) == sent_to_render(s) + rs.len()
        }),
    decreases os.len(),
{
    if os.len() > 0 && fits(s, os[0]) {
        let (t, m) = transition(source, dir, s, os[0]);
        lemma_step_order(source, dir, s, os[0]);
        lemma_step_render_order(source, dir, s, os[0]);
        let rest = os.drop_first();
        lemma_prepend(m, run(source, dir, t, rest));
        if t is Done || t is Failed {
            assert(run(source, dir, t, rest) == Seq::<Move>::empty());
            assert(rendered(Seq::<Move>::empty()) == Seq::<nat>::empty());
            assert(stage_after(source, dir, t, rest) == t);
        } else {
            lemma_run_render_order(source, dir, t, rest);
            let rt = rendered(run(source, dir, t, rest));
            if let Move::Render { index, .. } = m {
                let rs = seq![index] + rt;
                assert forall|i: int| 0 <= i < rs.len() implies rs[i] == sent_to_render(s) + i by {
                    if i > 0 {
                        assert(rs[i] == rt[i - 1]);
                    }
                }
            }
        }
    }
}

/// How many pages have been handed out for delivery on reaching stage `s`.
pub open spec fn handed_out(s: Stage) -> nat {
    match s {
        Stage::Rendering { index, .. } => index as nat,
        Stage::Delivering { index, .. } => index as nat + 1,
        Stage::Done { pages } => pages as nat,
        _ => 0,
    }
}

proof fn lemma_step_order(source: Seq<char>, dir: Seq<char>, s: Stage, o: Outcome)
    requires
        stage_wf(s),
        fits(s, o),
    ensures
        ({
            let (t, m) = transition(source, dir, s, o);
            &&& stage_wf(t)
            &&& t != Stage::Failed ==> match m {
                Move::Deliver { page_number, .. } => page_number == handed_out(s) + 1
                    && handed_out(t) == handed_out(s) + 1,
                _ => handed_out(t) == handed_out(s),
            }
            &&& t == Stage::Failed ==> m is Abort
        }),
{
}

proof fn lemma_run_order(source: Seq<char>, dir: Seq<char>, s: Stage, os: Seq<Outcome>)
    requires
        stage_wf(s),
        s != Stage::Failed,
    ensures
        ({
            let ds = delivered(run(source, dir, s, os));
            let f = stage_after(source, dir, s, os);
            &&& stage_wf(f)
            &&& forall|i: int| 0 <= i < ds.len() ==> ds[i] == handed_out(s) + i + 1
            &&& f != Stage::Failed ==> handed_out(f) == handed_out(s) + ds.len()
        }),
    decreases os.len(),
{
    if os.len() == 0 || !fits(s, os[0]) {
    } else {
        let (t, m) = transition(source, dir, s, os[0]);
        lemma_step_order(source, dir, s, os[0]);
        let rest = os.drop_first();
        let ms = seq![m] + run(source, dir, t, rest);
        assert(ms[0] == m);
        assert(ms.drop_first() == run(source, dir, t, rest));
        assert(run(source, dir, s, os) == ms);
        if t == Stage::Failed {
            assert(run(source, dir, t, rest) == Seq::<Move>::empty());
            assert(delivered(Seq::<Move>::empty()) == Seq::<nat>::empty());
            assert(stage_after(source, dir, t, rest) == t);
        } else {
            lemma_run_order(source, dir, t, rest);
            let dt = delivered(run(source, dir, t, rest));
            match m {
                Move::Deliver { page_number, .. } => {
                    let ds = seq![page_number] + dt;
                    assert(delivered(ms) == ds);
                    assert forall|i: int| 0 <= i < ds.len() implies ds[i] == handed_out(s) + i + 1 by {
                        if i > 0 {
                            assert(ds[i] == dt[i - 1]);
                        }
                    }
                },
                _ => {
                    assert(delivered(ms) == dt);
                },
            }
        }
    }
}

/// Deliveries come in page order: a run delivers pages 1, 2, 3, ... with no gap
/// and no repeat, whether it replays the cache or renders afresh, and a run that
/// completes has delivered every page of the document.
pub proof fn delivery_in_page_order(source: Seq<char>, dir: Seq<char>, os: Seq<Outcome>)
    ensures
        ({
            let ds = delivered(run(source, dir, Stage::Counting, os));
            &&& forall|i: int| 0 <= i < ds.len() ==> ds[i] == i + 1
            &&& forall|pages: usize| stage_after(source, dir, Stage::Counting, os) == (Stage::Done { pages })
                ==> ds.len() == pages
        }),
{
    lemma_run_order(source, dir, Stage::Counting, os);
}

proof fn lemma_run_append(source: Seq<char>, dir: Seq<char>, s: Stage, a: Seq<Outcome>, b: Seq<Outcome>)
    requires
        fits_all(source, dir, s, a),
    ensures
        run(source, dir, s, a + b) == run(source, dir, s, a) + run(
            source,
            dir,
            stage_after(source, dir, s, a),
            b,
        ),
        stage_after(source, dir, s, a + b) == stage_after(
            source,
            dir,
            stage_after(source, dir, s, a),
            b,
        ),
    decreases a.len(),
{
    if a.len() == 0 {
        assert(a + b == b);
    } else {
        let t = transition(source, dir, s, a[0]).0;
        assert((a + b)[0] == a[0]);
        assert((a + b).drop_first() == a.drop_first() + b);
        lemma_run_append(source, dir, t, a.drop_first(), b);
        assert(seq![transition(source, dir, s, a[0]).1] + run(source, dir, t, a.drop_first() + b)
            == seq![transition(source, dir, s, a[0]).1] + run(source, dir, t, a.drop_first())
                + run(source, dir, stage_after(source, dir, s, a), b));
    }
}

proof fn lemma_failed_is_final(source: Seq<char>, dir: Seq<char>, os: Seq<Outcome>)
    ensures
        run(source, dir, Stage::Failed, os) == Seq::<Move>::empty(),
        stage_after(source, dir, Stage::Failed, os) == Stage::Failed,
{
}

/// A rasterizer failure ends the run: when page `k` (1-based) fails, pages
/// 1 to k-1 have been delivered, the rasterizer has run exactly k times, on
/// page indices 0 to k-1 in order, the run reports the tool's exit code and error
/// text, and nothing that happens afterwards delivers or renders anything more.
pub proof fn failed_render_halts_run(
    source: Seq<char>,
    dir: Seq<char>,
    os: Seq<Outcome>,
    pages: usize,
    k: usize,
    code: i32,
    stderr: String,
    rest: Seq<Outcome>,
)
    requires
        fits_all(source, dir, Stage::Counting, os),
        1 <= k,
        stage_after(source, dir, Stage::Counting, os) == (Stage::Rendering { pages, index: (k - 1) as usize }),
    ensures
        ({
            let before = run(source, dir, Stage::Counting, os);
            let all = os.push(Outcome::RenderFailed(code, stderr)) + rest;
            &&& delivered(before).len() == k - 1
            &&& forall|i: int| 0 <= i < k - 1 ==> delivered(before)[i] == i + 1
            &&& rendered(before) == page_indices(0, k as nat)
            &&& run(source, dir, Stage::Counting, all) == before.push(
                Move::Abort(Error::ExternalTool { code, stderr }),
            )
            &&& stage_after(source, dir, Stage::Counting, all) == Stage::Failed
        }),
{
    lemma_run_order(source, dir, Stage::Counting, os);
    lemma_run_render_order(source, dir, Stage::Counting, os);
    assert(rendered(run(source, dir, Stage::Counting, os)) =~= page_indices(0, k as nat));
    let fail = seq![Outcome::RenderFailed(code, stderr)];
    let all = os.push(Outcome::RenderFailed(code, stderr)) + rest;
    assert(all == os + (fail + rest));
    lemma_run_append(source, dir, Stage::Counting, os, fail + rest);
    let r = Stage::Rendering { pages, index: (k - 1) as usize };
    assert((fail + rest)[0] == Outcome::RenderFailed(code, stderr));
    assert((fail + rest).drop_first() == rest);
    lemma_failed_is_final(source, dir, rest);
    assert(run(source, dir, r, fail + rest) == seq![Move::Abort(Error::ExternalTool { code, stderr })]
        + Seq::<Move>::empty());
}

} // verus!
