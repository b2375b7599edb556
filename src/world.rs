//! Whole runs against a model of the disk and of a rasterizer that always succeeds.
//!
//! The model answers each move as the host would when nothing goes wrong: it
//! reports the document's page count, lists the cache directory, creates it,
//! removes the listed files, writes the page image that a render names, and
//! acknowledges each delivery.
use vstd::prelude::*;
use crate::cache::{is_page_file, page_file_count, stale_paths, cache_status, CacheStatus};
use crate::laws::{delivered, rendered, page_indices, lemma_prepend};
use crate::paths::{image_extension, join};
use crate::pipeline::{Stage, Move, Outcome, fits, transition};
use crate::text::{decimal, lemma_decimal_value, lemma_decimal_injective};

verus! {

/// The file name of page `k` (1-based) inside the cache directory.
pub open spec fn page_name(k: nat) -> Seq<char> {
    decimal(k) + image_extension()
}

/// The file names of pages 1 to `k`, in order.
pub open spec fn page_names(k: nat) -> Seq<Seq<char>> {
    Seq::new(k, |i: int| page_name((i + 1) as nat))
}

/// The page numbers `lo + 1` to `hi`, in order.
pub open spec fn page_numbers(lo: nat, hi: nat) -> Seq<nat> {
    Seq::new((hi - lo) as nat, |i: int| (lo + i + 1) as nat)
}

/// The names that are not rendered pages, in order.
pub open spec fn other_files(names: Seq<Seq<char>>) -> Seq<Seq<char>>
    decreases names.len(),
{
    if names.len() == 0 {
        Seq::empty()
    } else if is_page_file(names.last()) {
        other_files(names.drop_last())
    } else {
        other_files(names.drop_last()).push(names.last())
    }
}

/// The names whose path in `dir` is not among `paths`, in order.
pub open spec fn unlisted(dir: Seq<char>, names: Seq<Seq<char>>, paths: Seq<Seq<char>>) -> Seq<Seq<char>>
    decreases names.len(),
{
    if names.len() == 0 {
        Seq::empty()
    } else if paths.contains(join(dir, names.last())) {
        unlisted(dir, names.drop_last(), paths)
    } else {
        unlisted(dir, names.drop_last(), paths).push(names.last())
    }
}

/// The document's page count and the file names in its cache directory, if it exists.
pub struct Disk {
    pub pages: usize,
    pub cache: Option<Seq<Seq<char>>>,
}

/// A directory after a file of this name was written into it.
pub open spec fn write_file(files: Seq<Seq<char>>, name: Seq<char>) -> Seq<Seq<char>> {
    if files.contains(name) {
        files
    } else {
        files.push(name)
    }
}

/// The disk after the host performed move `m` without failure, and what it reports.
pub open spec fn respond(dir: Seq<char>, d: Disk, m: Move) -> (Disk, Outcome) {
    match m {
        Move::CountPages(_) => (d, Outcome::Counted(d.pages)),
        Move::ListCache(_) => (d, Outcome::Listed(d.cache)),
        Move::CreateCache(_) => (Disk { pages: d.pages, cache: Some(Seq::empty()) }, Outcome::Prepared),
        Move::RemoveFiles(paths) => (
            Disk { pages: d.pages, cache: Some(unlisted(dir, d.cache->0, paths)) },
            Outcome::Prepared,
        ),
        Move::Render { index, .. } => (
            Disk { pages: d.pages, cache: Some(write_file(d.cache->0, page_name(index + 1))) },
            Outcome::Rendered,
        ),
        _ => (d, Outcome::Delivered),
    }
}

/// The moves, the final stage and the final disk of at most `fuel` steps from
/// stage `s`, which is fed `o` first.
pub open spec fn simulate(source: Seq<char>, dir: Seq<char>, s: Stage, d: Disk, o: Outcome, fuel: nat) -> (Seq<Move>, Stage, Disk)
    decreases fuel,
{
    if fuel == 0 || !fits(s, o) {
        (Seq::empty(), s, d)
    } else {
        let (t, m) = transition(source, dir, s, o);
        let (d2, o2) = respond(dir, d, m);
        let (ms, f, d3) = simulate(source, dir, t, d2, o2, (fuel - 1) as nat);
        (seq![m] + ms, f, d3)
    }
}

/// A whole run once the document's pages were counted.
pub open spec fn full_run(source: Seq<char>, dir: Seq<char>, d: Disk) -> (Seq<Move>, Stage, Disk) {
    simulate(source, dir, Stage::Counting, d, Outcome::Counted(d.pages), 2 * d.pages as nat + 4)
}

proof fn lemma_page_name(k: nat)
    ensures
        is_page_file(page_name(k)),
        page_name(k).subrange(0, page_name(k).len() - 5) == decimal(k),
{
    lemma_decimal_value(k);
    let p = page_name(k);
    assert(p.subrange(p.len() - 5, p.len() as int) =~= image_extension());
    assert(p.subrange(0, p.len() - 5) =~= decimal(k));
}

proof fn lemma_page_name_injective(a: nat, b: nat)
    requires
        page_name(a) == page_name(b),
    ensures
        a == b,
{
    lemma_page_name(a);
    lemma_page_name(b);
    lemma_decimal_injective(a, b);
}

proof fn lemma_fresh_name(base: Seq<Seq<char>>, k: nat)
    requires
        forall|i: int| 0 <= i < base.len() ==> !is_page_file(#[trigger] base[i]),
    ensures
        write_file(base + page_names(k), page_name(k + 1)) == base + page_names(k + 1),
{
    let files = base + page_names(k);
    lemma_page_name(k + 1);
    if files.contains(page_name(k + 1)) {
        let i = choose|i: int| 0 <= i < files.len() && files[i] == page_name(k + 1);
        if i < base.len() {
            assert(files[i] == base[i]);
        } else {
            assert(files[i] == page_name((i - base.len() + 1) as nat));
            lemma_page_name_injective((i - base.len() + 1) as nat, k + 1);
        }
    }
    assert(files.push(page_name(k + 1)) =~= base + page_names((k + 1) as nat));
}

proof fn lemma_other_files(names: Seq<Seq<char>>)
    ensures
        forall|i: int| 0 <= i < other_files(names).len() ==> !is_page_file(#[trigger] other_files(names)[i]),
        page_file_count(other_files(names)) == 0,
    decreases names.len(),
{
    if names.len() > 0 {
        lemma_other_files(names.drop_last());
        let o = other_files(names.drop_last());
        if !is_page_file(names.last()) {
            assert(o.push(names.last()).drop_last() == o);
        }
    }
}

proof fn lemma_count_concat(a: Seq<Seq<char>>, b: Seq<Seq<char>>)
    ensures
        page_file_count(a + b) == page_file_count(a) + page_file_count(b),
    decreases b.len(),
{
    if b.len() == 0 {
        assert(a + b == a);
    } else {
        lemma_count_concat(a, b.drop_last());
        assert((a + b).drop_last() == a + b.drop_last());
        assert((a + b).last() == b.last());
    }
}

proof fn lemma_count_page_names(k: nat)
    ensures
        page_file_count(page_names(k)) == k,
    decreases k,
{
    if k > 0 {
        lemma_count_page_names((k - 1) as nat);
        assert(page_names(k).drop_last() =~= page_names((k - 1) as nat));
        lemma_page_name(k);
    }
}

proof fn lemma_join_injective(dir: Seq<char>, a: Seq<char>, b: Seq<char>)
    requires
        join(dir, a) == join(dir, b),
    ensures
        a == b,
{
    assert(a =~= join(dir, a).subrange(dir.len() + 1int, join(dir, a).len() as int));
    assert(b =~= join(dir, b).subrange(dir.len() + 1int, join(dir, b).len() as int));
}

proof fn lemma_stale_paths(dir: Seq<char>, names: Seq<Seq<char>>, y: Seq<char>)
    ensures
        stale_paths(dir, names).contains(join(dir, y)) <==> (names.contains(y) && is_page_file(y)),
    decreases names.len(),
{
    if names.len() > 0 {
        let init = names.drop_last();
        let x = names.last();
        lemma_stale_paths(dir, init, y);
        let s0 = stale_paths(dir, init);
        assert(names == init.push(x));
        assert(names.contains(y) <==> (init.contains(y) || x == y)) by {
            if names.contains(y) {
                let i = choose|i: int| 0 <= i < names.len() && names[i] == y;
                if i < init.len() {
                    assert(init[i] == y);
                }
            }
            if init.contains(y) {
                let i = choose|i: int| 0 <= i < init.len() && init[i] == y;
                assert(names[i] == y);
            }
            if x == y {
                assert(names[names.len() - 1] == y);
            }
        }
        if is_page_file(x) {
            let s1 = s0.push(join(dir, x));
            assert(s1.contains(join(dir, y)) <==> (s0.contains(join(dir, y)) || join(dir, x) == join(dir, y))) by {
                if s1.contains(join(dir, y)) {
                    let i = choose|i: int| 0 <= i < s1.len() && s1[i] == join(dir, y);
                    if i < s0.len() {
                        assert(s0[i] == join(dir, y));
                    }
                }
                if s0.contains(join(dir, y)) {
                    let i = choose|i: int| 0 <= i < s0.len() && s0[i] == join(dir, y);
                    assert(s1[i] == join(dir, y));
                }
                if join(dir, x) == join(dir, y) {
                    assert(s1[s1.len() - 1] == join(dir, y));
                }
            }
            if join(dir, x) == join(dir, y) {
                lemma_join_injective(dir, x, y);
            }
        }
    }
}

proof fn lemma_unlisted(dir: Seq<char>, names: Seq<Seq<char>>, paths: Seq<Seq<char>>)
    requires
        forall|y: Seq<char>| #[trigger] names.contains(y) ==> (paths.contains(join(dir, y)) <==> is_page_file(y)),
    ensures
        unlisted(dir, names, paths) == other_files(names),
    decreases names.len(),
{
    if names.len() > 0 {
        let init = names.drop_last();
        assert forall|y: Seq<char>| #[trigger] init.contains(y) implies (paths.contains(join(dir, y)) <==> is_page_file(y)) by {
            let i = choose|i: int| 0 <= i < init.len() && init[i] == y;
            assert(names[i] == y);
            assert(names.contains(y));
        }
        lemma_unlisted(dir, init, paths);
        assert(names[names.len() - 1] == names.last());
        assert(names.contains(names.last()));
    }
}

/// Clearing a cache directory removes exactly its page images: of the files it
/// listed, those that are not page images stay, in their order, and no page
/// image remains.
pub proof fn clearing_removes_only_page_files(dir: Seq<char>, names: Seq<Seq<char>>)
    ensures
        unlisted(dir, names, stale_paths(dir, names)) == other_files(names),
        page_file_count(other_files(names)) == 0,
        forall|i: int| 0 <= i < other_files(names).len() ==> !is_page_file(#[trigger] other_files(names)[i]),
        forall|y: Seq<char>| names.contains(y) && !is_page_file(y) ==> #[trigger] other_files(names).contains(y),
{
    assert forall|y: Seq<char>| #[trigger] names.contains(y) implies (stale_paths(dir, names).contains(join(dir, y)) <==> is_page_file(y)) by {
        lemma_stale_paths(dir, names, y);
    }
    lemma_unlisted(dir, names, stale_paths(dir, names));
    lemma_other_files(names);
    assert forall|y: Seq<char>| names.contains(y) && !is_page_file(y) implies #[trigger] other_files(names).contains(y) by {
        lemma_other_files_keeps(names, y);
    }
}

proof fn lemma_other_files_keeps(names: Seq<Seq<char>>, y: Seq<char>)
    requires
        names.contains(y),
        !is_page_file(y),
    ensures
        other_files(names).contains(y),
    decreases names.len(),
{
    let init = names.drop_last();
    let o = other_files(init);
    if names.last() == y {
        assert(o.push(y)[o.len() as int] == y);
    } else {
        let i = choose|i: int| 0 <= i < names.len() && names[i] == y;
        assert(init[i] == y);
        lemma_other_files_keeps(init, y);
        if !is_page_file(names.last()) {
            let j = choose|j: int| 0 <= j < o.len() && o[j] == y;
            assert(o.push(names.last())[j] == y);
        }
    }
}

/// One step of a simulated run: its move, then the rest of the run.
proof fn lemma_sim_step(source: Seq<char>, dir: Seq<char>, s: Stage, d: Disk, o: Outcome, fuel: nat)
    requires
        fuel > 0,
        fits(s, o),
    ensures
        ({
            let (t, m) = transition(source, dir, s, o);
            let (d2, o2) = respond(dir, d, m);
            let (ms, f, d3) = simulate(source, dir, t, d2, o2, (fuel - 1) as nat);
            &&& simulate(source, dir, s, d, o, fuel) == (seq![m] + ms, f, d3)
            &&& delivered(seq![m] + ms) == match m {
                Move::Deliver { page_number, .. } => seq![page_number] + delivered(ms),
                _ => delivered(ms),
            }
            &&& rendered(seq![m] + ms) == match m {
                Move::Render { index, .. } => seq![index] + rendered(ms),
                _ => rendered(ms),
            }
        }),
{
    let (t, m) = transition(source, dir, s, o);
    let (d2, o2) = respond(dir, d, m);
    lemma_prepend(m, simulate(source, dir, t, d2, o2, (fuel - 1) as nat).0);
}

/// A step into a finished run: its one move is `Finish`, and the disk stays.
proof fn lemma_sim_finish(source: Seq<char>, dir: Seq<char>, s: Stage, d: Disk, o: Outcome, fuel: nat, n: usize)
    requires
        fuel > 0,
        fits(s, o),
        transition(source, dir, s, o) == (Stage::Done { pages: n }, Move::Finish),
    ensures
        ({
            let (ms, f, d2) = simulate(source, dir, s, d, o, fuel);
            &&& f == (Stage::Done { pages: n })
            &&& d2 == d
            &&& delivered(ms) == Seq::<nat>::empty()
            &&& rendered(ms) == Seq::<nat>::empty()
        }),
{
    lemma_sim_step(source, dir, s, d, o, fuel);
    assert(delivered(Seq::<Move>::empty()) == Seq::<nat>::empty());
    assert(rendered(Seq::<Move>::empty()) == Seq::<nat>::empty());
}

proof fn lemma_render_loop(source: Seq<char>, dir: Seq<char>, n: usize, k: usize, base: Seq<Seq<char>>, pages: usize, fuel: nat)
    requires
        k < n,
        fuel >= 2 * (n - k) - 1,
        forall|i: int| 0 <= i < base.len() ==> !is_page_file(#[trigger] base[i]),
    ensures
        ({
            let (ms, f, d2) = simulate(
                source,
                dir,
                Stage::Delivering { pages: n, index: k, replay: false },
                Disk { pages, cache: Some(base + page_names((k + 1) as nat)) },
                Outcome::Delivered,
                fuel,
            );
            &&& f == (Stage::Done { pages: n })
            &&& d2 == (Disk { pages, cache: Some(base + page_names(n as nat)) })
            &&& rendered(ms) == page_indices((k + 1) as nat, n as nat)
            &&& delivered(ms) == page_numbers((k + 1) as nat, n as nat)
        }),
    decreases n - k,
{
    let s = Stage::Delivering { pages: n, index: k, replay: false };
    let d = Disk { pages, cache: Some(base + page_names((k + 1) as nat)) };
    let (ms, f, d2) = simulate(source, dir, s, d, Outcome::Delivered, fuel);
    if k + 1 >= n {
        lemma_sim_finish(source, dir, s, d, Outcome::Delivered, fuel, n);
        assert(rendered(ms) =~= page_indices((k + 1) as nat, n as nat));
        assert(delivered(ms) =~= page_numbers((k + 1) as nat, n as nat));
    } else {
        let k1 = (k + 1) as usize;
        lemma_fresh_name(base, (k + 1) as nat);
        let d1 = Disk { pages, cache: Some(base + page_names((k1 + 1) as nat)) };
        let s1 = Stage::Rendering { pages: n, index: k1 };
        let s2 = Stage::Delivering { pages: n, index: k1, replay: false };
        lemma_sim_step(source, dir, s, d, Outcome::Delivered, fuel);
        lemma_sim_step(source, dir, s1, d1, Outcome::Rendered, (fuel - 1) as nat);
        lemma_render_loop(source, dir, n, k1, base, pages, (fuel - 2) as nat);
        assert(rendered(ms) =~= page_indices((k + 1) as nat, n as nat));
        assert(delivered(ms) =~= page_numbers((k + 1) as nat, n as nat));
    }
}

proof fn lemma_replay_loop(source: Seq<char>, dir: Seq<char>, n: usize, k: usize, d: Disk, fuel: nat)
    requires
        k < n,
        fuel >= n - k,
    ensures
        ({
            let (ms, f, d2) = simulate(
                source,
                dir,
                Stage::Delivering { pages: n, index: k, replay: true },
                d,
                Outcome::Delivered,
                fuel,
            );
            &&& f == (Stage::Done { pages: n })
            &&& d2 == d
            &&& rendered(ms) == Seq::<nat>::empty()
            &&& delivered(ms) == page_numbers((k + 1) as nat, n as nat)
        }),
    decreases n - k,
{
    let s = Stage::Delivering { pages: n, index: k, replay: true };
    let (ms, f, d2) = simulate(source, dir, s, d, Outcome::Delivered, fuel);
    if k + 1 >= n {
        lemma_sim_finish(source, dir, s, d, Outcome::Delivered, fuel, n);
        assert(delivered(ms) =~= page_numbers((k + 1) as nat, n as nat));
    } else {
        lemma_sim_step(source, dir, s, d, Outcome::Delivered, fuel);
        lemma_replay_loop(source, dir, n, (k + 1) as usize, d, (fuel - 1) as nat);
        assert(delivered(ms) =~= page_numbers((k + 1) as nat, n as nat));
    }
}

proof fn lemma_render_all(source: Seq<char>, dir: Seq<char>, n: usize, base: Seq<Seq<char>>, fuel: nat)
    requires
        fuel >= 2 * n + 1,
        forall|i: int| 0 <= i < base.len() ==> !is_page_file(#[trigger] base[i]),
    ensures
        ({
            let (ms, f, d2) = simulate(
                source,
                dir,
                Stage::Preparing { pages: n },
                Disk { pages: n, cache: Some(base) },
                Outcome::Prepared,
                fuel,
            );
            &&& f == (Stage::Done { pages: n })
            &&& d2 == (Disk { pages: n, cache: Some(base + page_names(n as nat)) })
            &&& rendered(ms) == page_indices(0, n as nat)
            &&& delivered(ms) == page_numbers(0, n as nat)
        }),
{
    let s = Stage::Preparing { pages: n };
    let d = Disk { pages: n, cache: Some(base) };
    let (ms, f, d2) = simulate(source, dir, s, d, Outcome::Prepared, fuel);
    assert(base + page_names(0) =~= base);
    if n == 0 {
        lemma_sim_finish(source, dir, s, d, Outcome::Prepared, fuel, n);
        assert(rendered(ms) =~= page_indices(0, n as nat));
        assert(delivered(ms) =~= page_numbers(0, n as nat));
    } else {
        lemma_fresh_name(base, 0);
        let d1 = Disk { pages: n, cache: Some(base + page_names(1)) };
        let s1 = Stage::Rendering { pages: n, index: 0 };
        lemma_sim_step(source, dir, s, d, Outcome::Prepared, fuel);
        lemma_sim_step(source, dir, s1, d1, Outcome::Rendered, (fuel - 1) as nat);
        lemma_render_loop(source, dir, n, 0, base, n, (fuel - 2) as nat);
        assert(rendered(ms) =~= page_indices(0, n as nat));
        assert(delivered(ms) =~= page_numbers(0, n as nat));
    }
}

/// What is left of a cache directory once its page images are gone.
pub open spec fn kept(listing: Option<Seq<Seq<char>>>) -> Seq<Seq<char>> {
    match listing {
        None => Seq::empty(),
        Some(names) => other_files(names),
    }
}

proof fn lemma_full_run(source: Seq<char>, dir: Seq<char>, d: Disk)
    ensures
        ({
            let n = d.pages;
            let (ms, f, d2) = full_run(source, dir, d);
            &&& f == (Stage::Done { pages: n })
            &&& delivered(ms) == page_numbers(0, n as nat)
            &&& d2.pages == n
            &&& d2.cache is Some
            &&& page_file_count(d2.cache->0) == n
            &&& cache_status(d.cache, n as nat) == CacheStatus::Complete
                ==> rendered(ms) == Seq::<nat>::empty() && d2 == d
            &&& cache_status(d.cache, n as nat) != CacheStatus::Complete
                ==> rendered(ms) == page_indices(0, n as nat)
                && d2.cache == Some(kept(d.cache) + page_names(n as nat))
        }),
{
    let n = d.pages;
    let fuel = 2 * n as nat + 4;
    let s1 = Stage::Inspecting { pages: n };
    lemma_sim_step(source, dir, Stage::Counting, d, Outcome::Counted(n), fuel);
    lemma_sim_step(source, dir, s1, d, Outcome::Listed(d.cache), (fuel - 1) as nat);
    let (ms, f, d2) = full_run(source, dir, d);
    match cache_status(d.cache, n as nat) {
        CacheStatus::Complete => {
            if n == 0 {
                lemma_sim_finish(source, dir, s1, d, Outcome::Listed(d.cache), (fuel - 1) as nat, n);
                assert(delivered(ms) =~= page_numbers(0, n as nat));
            } else {
                lemma_replay_loop(source, dir, n, 0, d, (fuel - 2) as nat);
                assert(delivered(ms) =~= page_numbers(0, n as nat));
            }
        },
        CacheStatus::Absent => {
            lemma_render_all(source, dir, n, Seq::empty(), (fuel - 2) as nat);
            assert(Seq::<Seq<char>>::empty() + page_names(n as nat) == page_names(n as nat));
            lemma_count_page_names(n as nat);
        },
        CacheStatus::Mismatched(_) => {
            let names = d.cache->0;
            clearing_removes_only_page_files(dir, names);
            lemma_render_all(source, dir, n, other_files(names), (fuel - 2) as nat);
            lemma_count_page_names(n as nat);
            lemma_count_concat(other_files(names), page_names(n as nat));
        },
    }
}

/// A document without a cache directory has every page rendered once, pages
/// 0 to n-1 in order, and delivered once, pages 1 to n in order; the new cache
/// directory then holds exactly the page images 1 to n.
pub proof fn absent_cache_renders_every_page(source: Seq<char>, dir: Seq<char>, d: Disk)
    requires
        d.cache is None,
    ensures
        ({
            let (ms, f, d2) = full_run(source, dir, d);
            &&& rendered(ms) == page_indices(0, d.pages as nat)
            &&& delivered(ms) == page_numbers(0, d.pages as nat)
            &&& f == (Stage::Done { pages: d.pages })
            &&& d2.cache == Some(page_names(d.pages as nat))
        }),
{
    lemma_full_run(source, dir, d);
    assert(kept(d.cache) + page_names(d.pages as nat) =~= page_names(d.pages as nat));
}

/// A cache whose number of page images differs from the page count loses all
/// of them: the M pages are rendered once each, indices 0 to M-1 in order, and
/// afterwards the directory holds its other files and exactly the page images
/// 1 to M.
pub proof fn mismatched_cache_is_replaced(source: Seq<char>, dir: Seq<char>, d: Disk)
    requires
        d.cache is Some,
        page_file_count(d.cache->0) != d.pages,
    ensures
        ({
            let (ms, f, d2) = full_run(source, dir, d);
            &&& rendered(ms) == page_indices(0, d.pages as nat)
            &&& delivered(ms) == page_numbers(0, d.pages as nat)
            &&& f == (Stage::Done { pages: d.pages })
            &&& d2.cache == Some(other_files(d.cache->0) + page_names(d.pages as nat))
        }),
{
    lemma_full_run(source, dir, d);
}

/// A cache with as many page images as the document has pages is replayed as
/// it is: nothing is rendered, nothing on disk changes, and pages 1 to n are
/// delivered in order.
pub proof fn complete_cache_is_replayed(source: Seq<char>, dir: Seq<char>, d: Disk)
    requires
        d.cache is Some,
        page_file_count(d.cache->0) == d.pages,
    ensures
        ({
            let (ms, f, d2) = full_run(source, dir, d);
            &&& rendered(ms) == Seq::<nat>::empty()
            &&& delivered(ms) == page_numbers(0, d.pages as nat)
            &&& f == (Stage::Done { pages: d.pages })
            &&& d2 == d
        }),
{
    lemma_full_run(source, dir, d);
}

/// Running twice on an unchanged document renders nothing the second time: the
/// second run replays the cache that the first one left, delivers the same
/// pages, and leaves the cache directory as it was.
pub proof fn second_run_renders_nothing(source: Seq<char>, dir: Seq<char>, d: Disk)
    ensures
        ({
            let d1 = full_run(source, dir, d).2;
            let (ms, f, d2) = full_run(source, dir, d1);
            &&& rendered(ms) == Seq::<nat>::empty()
            &&& delivered(ms) == page_numbers(0, d.pages as nat)
            &&& f == (Stage::Done { pages: d.pages })
            &&& d2 == d1
        }),
{
    lemma_full_run(source, dir, d);
    let d1 = full_run(source, dir, d).2;
    lemma_full_run(source, dir, d1);
    complete_cache_is_replayed(source, dir, d1);
}

} // verus!
