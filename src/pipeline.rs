//! Splitting the history among workers and turning one commit's diff into records.
use vstd::prelude::*;
use vstd::arithmetic::div_mod::{lemma_fundamental_div_mod, lemma_mod_pos_bound};
use vstd::arithmetic::mul::lemma_mul_inequality;
use crate::diff::{event_views, DiffEvent, EventView};
use crate::git::Commit;
use crate::scan::{
    check_patterns, file_match, file_record, file_text, line_records, lemma_match_views_push,
    match_views, MatchView, Pattern, PatternMatch,
};

verus! {

/// How many captures the events `ev` ask for.
pub open spec fn capture_count(ev: Seq<EventView>) -> nat
    decreases ev.len(),
{
    if ev.len() == 0 {
        0
    } else {
        capture_count(ev.drop_last()) + if ev.last() is Capture {
            1nat
        } else {
            0nat
        }
    }
}

pub open spec fn byte_views(v: Seq<Vec<u8>>) -> Seq<Seq<u8>> {
    v.map_values(|b: Vec<u8>| b@)
}

/// The records of one commit, in the order its events come: the matches of
/// each content line, and one record per capture, whose content is the
/// matching entry of `caps` (a capture with no entry yields nothing).
pub open spec fn commit_records(
    ps: Seq<Pattern>,
    ev: Seq<EventView>,
    caps: Seq<Seq<u8>>,
    repo: Seq<char>,
    commit: Commit,
) -> Seq<MatchView>
    decreases ev.len(),
{
    if ev.len() == 0 {
        Seq::empty()
    } else {
        let rest = commit_records(ps, ev.drop_last(), caps, repo, commit);
        match ev.last() {
            EventView::Line(f, l) => rest + line_records(ps, l, repo, f, commit),
            EventView::Capture(f, _b, d, bin) => {
                let k = capture_count(ev.drop_last()) as int;
                if k < caps.len() {
                    rest.push(file_record(d, f, file_text(bin, caps[k]), repo, commit))
                } else {
                    rest
                }
            },
        }
    }
}

proof fn lemma_match_views_concat(a: Seq<PatternMatch>, b: Seq<PatternMatch>)
    ensures
        match_views(a + b) == match_views(a) + match_views(b),
{
    assert(match_views(a + b) =~= match_views(a) + match_views(b));
}

/// The records of one commit from its diff events and, for the k-th capture
/// event, the file content `captured[k]`.
pub fn scan_commit(
    patterns: &Vec<Pattern>,
    events: &Vec<DiffEvent>,
    captured: &Vec<Vec<u8>>,
    repo_path: &String,
    commit: &Commit,
) -> (r: Vec<PatternMatch>)
    ensures
        match_views(r@) == commit_records(
            patterns@,
            event_views(events@),
            byte_views(captured@),
            repo_path@,
            *commit,
        ),
{
    let mut r: Vec<PatternMatch> = Vec::new();
    let mut k: usize = 0;
    let mut i: usize = 0;
    while i < events.len()
        invariant
            i <= events@.len(),
            k == capture_count(event_views(events@).take(i as int)),
            k <= i,
            match_views(r@) == commit_records(
                patterns@,
                event_views(events@).take(i as int),
                byte_views(captured@),
                repo_path@,
                *commit,
            ),
        decreases events@.len() - i,
    {
        let ghost evs = event_views(events@);
        assert(evs.take(i + 1).drop_last() =~= evs.take(i as int));
        assert(evs.take(i + 1).last() == events@[i as int]@);
        match &events[i] {
            DiffEvent::Line { file, line } => {
                let mut found = check_patterns(patterns, line.as_str(), repo_path, file, commit);
                proof {
                    lemma_match_views_concat(r@, found@);
                }
                r.append(&mut found);
            },
            DiffEvent::Capture { file, blob: _, description, binary } => {
                if k < captured.len() {
                    let m = file_match(description, *binary, file, &captured[k], repo_path, commit);
                    proof {
                        lemma_match_views_push(r@, m);
                    }
                    r.push(m);
                }
                k = k + 1;
            },
        }
        i = i + 1;
    }
    assert(event_views(events@).take(events@.len() as int) =~= event_views(events@));
    r
}

/// Size of chunk `i` when `total` items go to `n` workers: an even share, the
/// last worker taking the remainder as well.
pub open spec fn chunk_size(total: int, n: int, i: int) -> int {
    if i == n - 1 {
        total / n + total % n
    } else {
        total / n
    }
}

/// The chunks of `s` for `n` workers: contiguous, in worker order.
pub open spec fn chunks_of<T>(s: Seq<T>, n: int) -> Seq<Seq<T>> {
    Seq::new(
        n as nat,
        |i: int| s.subrange(i * ((s.len() as int) / n), i * ((s.len() as int) / n) + chunk_size(s.len() as int, n, i)),
    )
}

pub open spec fn vec_views<T>(v: Seq<Vec<T>>) -> Seq<Seq<T>> {
    v.map_values(|c: Vec<T>| c@)
}

proof fn lemma_share_bounds(total: int, n: int, i: int)
    requires
        n > 0,
        0 <= total,
        0 <= i <= n,
    ensures
        0 <= i * (total / n) <= n * (total / n) <= total,
        total == n * (total / n) + total % n,
        0 <= total % n < n,
        0 <= total / n,
{
    lemma_fundamental_div_mod(total, n);
    lemma_mod_pos_bound(total, n);
    assert(0 <= total / n) by (nonlinear_arith)
        requires
            n > 0,
            0 <= total,
            total == n * (total / n) + total % n,
            total % n < n,
    ;
    lemma_mul_inequality(i, n, total / n);
    assert(0 <= i * (total / n)) by (nonlinear_arith)
        requires
            0 <= i,
            0 <= total / n,
    ;
}

/// Splits `items` into `workers` contiguous chunks (see `chunks_of`).
pub fn partition<T>(items: Vec<T>, workers: usize) -> (r: Vec<Vec<T>>)
    requires
        workers > 0,
    ensures
        vec_views(r@) == chunks_of(items@, workers as int),
{
    let ghost s = items@;
    let ghost n = workers as int;
    let total = items.len();
    let q = total / workers;
    let mut rest = items;
    let mut r: Vec<Vec<T>> = Vec::new();
    let mut i: usize = 0;
    proof {
        lemma_share_bounds(total as int, n, 0);
    }
    while i + 1 < workers
        invariant
            0 <= i < workers,
            total == s.len(),
            q == (s.len() as int) / n,
            n == workers,
            i * q <= total,
            rest@ == s.subrange(i * q, total as int),
            vec_views(r@) == chunks_of(s, n).take(i as int),
        decreases workers - i,
    {
        proof {
            lemma_share_bounds(total as int, n, i + 1);
            assert((i + 1) * q == i * q + q) by (nonlinear_arith);
        }
        let tail = rest.split_off(q);
        assert(rest@ =~= chunks_of(s, n)[i as int]);
        let ghost before = r@;
        r.push(rest);
        assert(vec_views(r@) =~= chunks_of(s, n).take(i + 1)) by {
            assert(vec_views(r@) =~= vec_views(before).push(r@[i as int]@));
        }
        rest = tail;
        i = i + 1;
    }
    proof {
        lemma_share_bounds(total as int, n, i as int);
        assert(i == n - 1);
        assert(i * q + q == n * q) by (nonlinear_arith)
            requires
                i == n - 1,
        ;
        assert(i * q + chunk_size(total as int, n, i as int) == total);
    }
    assert(rest@ =~= chunks_of(s, n)[i as int]);
    let ghost before = r@;
    r.push(rest);
    assert(vec_views(r@) =~= vec_views(before).push(r@[i as int]@));
    assert(vec_views(r@) =~= chunks_of(s, n));
    r
}

proof fn lemma_prefix_flatten<T>(s: Seq<T>, n: int, k: int)
    requires
        n > 0,
        0 <= k <= n,
    ensures
        k < n ==> chunks_of(s, n).take(k).flatten() == s.subrange(0, k * ((s.len() as int) / n)),
        k == n ==> chunks_of(s, n).take(k).flatten() == s,
    decreases k,
{
    let c = chunks_of(s, n);
    let q = (s.len() as int) / n;
    if k == 0 {
        assert(c.take(0).flatten() =~= s.subrange(0, 0));
    } else {
        lemma_prefix_flatten(s, n, k - 1);
        lemma_share_bounds(s.len() as int, n, k - 1);
        lemma_share_bounds(s.len() as int, n, k);
        assert(c.take(k) =~= c.take(k - 1).push(c[k - 1]));
        c.take(k - 1).lemma_flatten_push(c[k - 1]);
        assert(k * q == (k - 1) * q + q) by (nonlinear_arith);
        if k < n {
            assert(c.take(k).flatten() =~= s.subrange(0, k * q));
        } else {
            assert(c.take(k).flatten() =~= s);
        }
    }
}

/// The chunks given to the workers, concatenated in worker order, are the
/// input list: nothing is lost, duplicated or reordered. Each chunk begins
/// where the one before it ends.
pub proof fn lemma_partition_complete<T>(s: Seq<T>, n: int)
    requires
        n > 0,
    ensures
        chunks_of(s, n).flatten() == s,
        forall|i: int|
            0 <= i < n - 1 ==> (#[trigger] (i * ((s.len() as int) / n))) + chunk_size(s.len() as int, n, i)
                == (i + 1) * ((s.len() as int) / n),
{
    let q = (s.len() as int) / n;
    assert forall|i: int| 0 <= i < n - 1 implies (#[trigger] (i * ((s.len() as int) / n))) + chunk_size(
        s.len() as int,
        n,
        i,
    ) == (i + 1) * ((s.len() as int) / n) by {
        assert((i + 1) * q == i * q + q) by (nonlinear_arith);
    }
    lemma_prefix_flatten(s, n, n);
    let c = chunks_of(s, n);
    assert(c.take(n) =~= c);
}

} // verus!
