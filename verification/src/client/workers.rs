//! The registered workers, in an order that alternates between transport paths.
use vstd::prelude::*;
use crate::client::packet_queue::PacketQueue;
use crate::text::{
    chars_of, lemma_text_lt_total, lemma_text_lt_trans, same_chars, text_less, text_lt,
};
use vstd::multiset::Multiset;

verus! {

/// The three queues of one worker, with the transport path that it uses.
pub struct WorkerChannels {
    pub id: usize,
    pub incarnation_id: u64,
    pub turn_path: String,
    pub latency: PacketQueue,
    pub priority: PacketQueue,
    pub bulk: PacketQueue,
}

impl WorkerChannels {
    /// All three queues are within their bounds.
    pub open spec fn wf(&self) -> bool {
        self.latency.wf() && self.priority.wf() && self.bulk.wf()
    }
}

/// Every worker is listed once, under its own number.
pub open spec fn unique_workers(m: Multiset<WorkerChannels>) -> bool {
    &&& forall|a: WorkerChannels| #[trigger] m.count(a) <= 1
    &&& forall|a: WorkerChannels, b: WorkerChannels|
        #![trigger m.count(a), m.count(b)]
        m.count(a) > 0 && m.count(b) > 0 && a.id == b.id ==> a == b
}

/// The workers on a path with a number below `id`.
pub open spec fn below_on_path(
    m: Multiset<WorkerChannels>,
    path: Seq<char>,
    id: usize,
) -> Multiset<WorkerChannels> {
    m.filter(|w: WorkerChannels| w.turn_path@ == path && w.id < id)
}

/// The position of a worker among the workers of its own path, by number.
pub open spec fn path_rank(m: Multiset<WorkerChannels>, w: WorkerChannels) -> nat {
    below_on_path(m, w.turn_path@, w.id).len()
}

/// By rank within the own path first, then by path.
pub open spec fn turn_before(
    rank_a: nat,
    path_a: Seq<char>,
    rank_b: nat,
    path_b: Seq<char>,
) -> bool {
    rank_a < rank_b || (rank_a == rank_b && text_lt(path_a, path_b))
}

/// The round-robin order over the paths: the first worker of every path, in the order
/// of the paths, then the second of every path, and so on.
pub open spec fn interleaved(ws: Seq<WorkerChannels>) -> bool {
    let m = ws.to_multiset();
    forall|i: int, j: int|
        #![trigger ws[i], ws[j]]
        0 <= i < j < ws.len() ==> turn_before(
            path_rank(m, ws[i]),
            ws[i].turn_path@,
            path_rank(m, ws[j]),
            ws[j].turn_path@,
        )
}

/// Two workers of one path have different ranks.
proof fn lemma_rank_strict(m: Multiset<WorkerChannels>, a: WorkerChannels, b: WorkerChannels)
    requires
        m.count(a) > 0,
        a.turn_path@ == b.turn_path@,
        a.id < b.id,
    ensures
        path_rank(m, a) < path_rank(m, b),
{
    broadcast use vstd::multiset::group_multiset_axioms;

    let fa = below_on_path(m, a.turn_path@, a.id);
    let fb = below_on_path(m, b.turn_path@, b.id);
    let more = fa.insert(a);
    assert(more.subset_of(fb)) by {
        assert forall|w: WorkerChannels| more.count(w) <= fb.count(w) by {}
    }
    let rest = fb.sub(more);
    assert(fb =~= more.add(rest));
    assert(fb.len() == more.len() + rest.len());
    assert(more.len() == fa.len() + 1);
}

/// Counts the workers of a path with a number below `id`.
fn rank_on_path(
    workers: &Vec<WorkerChannels>,
    paths: &Vec<Vec<char>>,
    at: usize,
) -> (r: usize)
    requires
        at < workers@.len(),
        paths@.len() == workers@.len(),
        forall|i: int|
            0 <= i < paths@.len() ==> (#[trigger] paths@[i])@ == workers@[i].turn_path@,
    ensures
        r == path_rank(workers@.to_multiset(), workers@[at as int]),
{
    let mut r: usize = 0;
    let mut i: usize = 0;
    let ghost me = workers@[at as int];
    let ghost p = |w: WorkerChannels| w.turn_path@ == me.turn_path@ && w.id < me.id;
    proof {
        broadcast use vstd::multiset::group_multiset_axioms;
        broadcast use vstd::seq_lib::group_to_multiset_ensures;

        assert(workers@.take(0) =~= Seq::<WorkerChannels>::empty());
        assert(workers@.take(0).to_multiset().len() == 0);
        assert(workers@.take(0).to_multiset() =~= Multiset::<WorkerChannels>::empty());
        assert(workers@.take(0).to_multiset().filter(p) =~= Multiset::<WorkerChannels>::empty());
    }
    while i < workers.len()
        invariant
            i <= workers@.len(),
            r <= i,
            at < workers@.len(),
            paths@.len() == workers@.len(),
            forall|k: int|
                0 <= k < paths@.len() ==> (#[trigger] paths@[k])@ == workers@[k].turn_path@,
            me == workers@[at as int],
            p == |w: WorkerChannels| w.turn_path@ == me.turn_path@ && w.id < me.id,
            r == workers@.take(i as int).to_multiset().filter(p).len(),
        decreases workers@.len() - i,
    {
        let hit = same_chars(paths[i].as_slice(), paths[at].as_slice()) && workers[i].id
            < workers[at].id;
        proof {
            broadcast use vstd::multiset::group_multiset_axioms;
            broadcast use vstd::seq_lib::group_to_multiset_ensures;

            let before = workers@.take(i as int);
            let w = workers@[i as int];
            assert(workers@.take(i as int + 1) =~= before.push(w));
            let m = before.to_multiset();
            let n = before.push(w).to_multiset();
            assert(n =~= m.insert(w));
            assert(hit == p(w));
            if hit {
                assert(n.filter(p) =~= m.filter(p).insert(w));
                assert(n.filter(p).len() == m.filter(p).len() + 1);
            } else {
                assert(n.filter(p) =~= m.filter(p));
            }
        }
        if hit {
            r = r + 1;
        }
        i = i + 1;
    }
    proof {
        assert(workers@.take(i as int) =~= workers@);
    }
    r
}

/// Puts the workers into round-robin order over their paths.
#[verifier::rlimit(40)]
pub fn interleave_turn_paths(workers: Vec<WorkerChannels>) -> (r: Vec<WorkerChannels>)
    requires
        unique_workers(workers@.to_multiset()),
    ensures
        r@.to_multiset() == workers@.to_multiset(),
        interleaved(r@),
{
    let mut workers = workers;
    let ghost m = workers@.to_multiset();
    let mut paths: Vec<Vec<char>> = Vec::new();
    let mut i: usize = 0;
    while i < workers.len()
        invariant
            i <= workers@.len(),
            paths@.len() == i,
            forall|k: int|
                0 <= k < paths@.len() ==> (#[trigger] paths@[k])@ == workers@[k].turn_path@,
        decreases workers@.len() - i,
    {
        paths.push(chars_of(workers[i].turn_path.as_str()));
        i = i + 1;
    }
    let mut ranks: Vec<usize> = Vec::new();
    i = 0;
    while i < workers.len()
        invariant
            i <= workers@.len(),
            ranks@.len() == i,
            m == workers@.to_multiset(),
            paths@.len() == workers@.len(),
            forall|k: int|
                0 <= k < paths@.len() ==> (#[trigger] paths@[k])@ == workers@[k].turn_path@,
            forall|k: int| 0 <= k < i ==> (#[trigger] ranks@[k]) == path_rank(m, workers@[k]),
        decreases workers@.len() - i,
    {
        ranks.push(rank_on_path(&workers, &paths, i));
        i = i + 1;
    }
    let mut out: Vec<WorkerChannels> = Vec::new();
    let mut out_ranks: Vec<usize> = Vec::new();
    proof {
        broadcast use vstd::multiset::group_multiset_axioms;
        broadcast use vstd::seq_lib::group_to_multiset_ensures;

        assert(out@.to_multiset() =~= Multiset::<WorkerChannels>::empty());
        assert(workers@.to_multiset().add(out@.to_multiset()) =~= m);
    }
    while workers.len() > 0
        invariant
            ranks@.len() == workers@.len(),
            out_ranks@.len() == out@.len(),
            unique_workers(m),
            workers@.to_multiset().add(out@.to_multiset()) == m,
            forall|k: int|
                0 <= k < ranks@.len() ==> (#[trigger] ranks@[k]) == path_rank(m, workers@[k]),
            forall|k: int|
                0 <= k < out_ranks@.len() ==> (#[trigger] out_ranks@[k]) == path_rank(m, out@[k]),
            forall|a: int, b: int|
                #![trigger out@[a], out@[b]]
                0 <= a < b < out@.len() ==> turn_before(
                    path_rank(m, out@[a]),
                    out@[a].turn_path@,
                    path_rank(m, out@[b]),
                    out@[b].turn_path@,
                ),
        decreases workers@.len(),
    {
        let ghost ws = workers@;
        let ghost os = out@;
        let ghost rs = ranks@;
        let last: usize = workers.len() - 1;
        let w = workers.remove(last);
        let rank: usize = ranks.remove(last);
        let path = chars_of(w.turn_path.as_str());
        proof {
            assert(ws[last as int] == w);
            assert(rs[last as int] == path_rank(m, w));
        }
        let mut p: usize = 0;
        let mut placed = false;
        while p < out.len() && !placed
            invariant
                p <= out@.len(),
                out@ == os,
                out_ranks@.len() == out@.len(),
                path@ == w.turn_path@,
                rank == path_rank(m, w),
                forall|k: int|
                    0 <= k < out_ranks@.len() ==> (#[trigger] out_ranks@[k]) == path_rank(
                        m,
                        out@[k],
                    ),
                forall|k: int|
                    0 <= k < p ==> turn_before(
                        path_rank(m, #[trigger] out@[k]),
                        out@[k].turn_path@,
                        rank as nat,
                        w.turn_path@,
                    ),
                placed ==> p < out@.len() && !turn_before(
                    path_rank(m, out@[p as int]),
                    out@[p as int].turn_path@,
                    rank as nat,
                    w.turn_path@,
                ),
            decreases
                    out@.len() - p + (if placed {
                        0int
                    } else {
                        1int
                    }),
        {
            let other = chars_of(out[p].turn_path.as_str());
            if out_ranks[p] < rank || (out_ranks[p] == rank && text_less(
                other.as_slice(),
                path.as_slice(),
            )) {
                p = p + 1;
            } else {
                placed = true;
            }
        }
        out.insert(p, w);
        out_ranks.insert(p, rank);
        proof {
            broadcast use vstd::multiset::group_multiset_axioms;
            broadcast use vstd::seq_lib::group_to_multiset_ensures;

            let wm = ws.to_multiset();
            let om = os.to_multiset();
            assert(ws.contains(w));
            assert(wm.count(w) > 0);
            assert(workers@.to_multiset() =~= wm.remove(w));
            vstd::seq_lib::to_multiset_insert(os, p as int, w);
            assert(out@.to_multiset() =~= om.insert(w));
            assert(workers@.to_multiset().add(out@.to_multiset()) =~= m);
            // Every worker that is in place already differs from the new one.
            assert forall|k: int| 0 <= k < os.len() implies #[trigger] os[k].id != w.id by {
                if os[k].id == w.id {
                    assert(os.contains(os[k]));
                    assert(om.count(os[k]) > 0);
                    assert(m.count(os[k]) > 0);
                    assert(m.count(w) > 0);
                    assert(os[k] == w);
                    assert(m.count(w) == wm.count(w) + om.count(w));
                }
            }
            // Those behind the insertion point come later.
            assert forall|k: int| p <= k < os.len() implies turn_before(
                rank as nat,
                w.turn_path@,
                path_rank(m, #[trigger] os[k]),
                os[k].turn_path@,
            ) by {
                let x = os[p as int];
                assert(os.contains(x));
                assert(m.count(x) > 0);
                assert(m.count(w) > 0);
                lemma_text_lt_total(x.turn_path@, w.turn_path@);
                if x.turn_path@ == w.turn_path@ {
                    if x.id < w.id {
                        lemma_rank_strict(m, x, w);
                    } else {
                        lemma_rank_strict(m, w, x);
                    }
                }
                if k > p {
                    assert(turn_before(
                        path_rank(m, os[p as int]),
                        os[p as int].turn_path@,
                        path_rank(m, os[k]),
                        os[k].turn_path@,
                    ));
                    if path_rank(m, x) == rank && path_rank(m, os[k]) == rank {
                        lemma_text_lt_trans(w.turn_path@, x.turn_path@, os[k].turn_path@);
                    }
                }
            }
            assert forall|a: int, b: int|
                #![trigger out@[a], out@[b]]
                0 <= a < b < out@.len() implies turn_before(
                path_rank(m, out@[a]),
                out@[a].turn_path@,
                path_rank(m, out@[b]),
                out@[b].turn_path@,
            ) by {
                if b < p {
                    assert(os[a] == out@[a] && os[b] == out@[b]);
                } else if b == p {
                    assert(os[a] == out@[a]);
                } else if a < p {
                    assert(os[a] == out@[a] && os[b - 1] == out@[b]);
                } else if a == p {
                    assert(os[b - 1] == out@[b]);
                } else {
                    assert(os[a - 1] == out@[a] && os[b - 1] == out@[b]);
                }
            }
            assert forall|k: int| 0 <= k < out_ranks@.len() implies (#[trigger] out_ranks@[k])
                == path_rank(m, out@[k]) by {}
            assert forall|k: int| 0 <= k < ranks@.len() implies (#[trigger] ranks@[k]) == path_rank(
                m,
                workers@[k],
            ) by {
                assert(rs[k] == ranks@[k]);
                assert(ws[k] == workers@[k]);
            }
        }
    }
    proof {
        broadcast use vstd::multiset::group_multiset_axioms;
        broadcast use vstd::seq_lib::group_to_multiset_ensures;

        assert(workers@.to_multiset() =~= Multiset::<WorkerChannels>::empty());
        assert(out@.to_multiset() =~= m);
    }
    out
}

/// Interleaving never puts two workers of one path next to each other while a later
/// worker of another path has the rank of the first: whoever follows a worker either
/// has its rank and another path, or a higher rank.
pub proof fn law_paths_alternate(ws: Seq<WorkerChannels>, i: int)
    requires
        interleaved(ws),
        0 <= i < ws.len() - 1,
        path_rank(ws.to_multiset(), ws[i]) == path_rank(ws.to_multiset(), ws[i + 1]),
    ensures
        ws[i].turn_path@ != ws[i + 1].turn_path@,
{
    lemma_text_lt_total(ws[i].turn_path@, ws[i + 1].turn_path@);
    assert(turn_before(
        path_rank(ws.to_multiset(), ws[i]),
        ws[i].turn_path@,
        path_rank(ws.to_multiset(), ws[i + 1]),
        ws[i + 1].turn_path@,
    ));
}

/// Within a path, workers stand in the order of their numbers.
pub proof fn law_numbers_rise_within_a_path(ws: Seq<WorkerChannels>, i: int, j: int)
    requires
        interleaved(ws),
        0 <= i < ws.len(),
        0 <= j < ws.len(),
        ws[i].turn_path@ == ws[j].turn_path@,
        ws[i].id < ws[j].id,
    ensures
        i < j,
{
    broadcast use vstd::seq_lib::group_to_multiset_ensures;

    let m = ws.to_multiset();
    assert(ws.contains(ws[i]));
    lemma_rank_strict(m, ws[i], ws[j]);
    if j < i {
        lemma_text_lt_total(ws[j].turn_path@, ws[i].turn_path@);
        assert(turn_before(
            path_rank(m, ws[j]),
            ws[j].turn_path@,
            path_rank(m, ws[i]),
            ws[i].turn_path@,
        ));
    }
}

/// The workers take turns by path: whoever is lower among the workers of its path stands
/// before, and among equals the path that sorts first.
pub proof fn law_turns_go_by_rank(ws: Seq<WorkerChannels>, i: int, j: int)
    requires
        interleaved(ws),
        0 <= i < ws.len(),
        0 <= j < ws.len(),
        ({
            let m = ws.to_multiset();
            ||| path_rank(m, ws[i]) < path_rank(m, ws[j])
            ||| path_rank(m, ws[i]) == path_rank(m, ws[j]) && text_lt(
                ws[i].turn_path@,
                ws[j].turn_path@,
            )
        }),
    ensures
        i < j,
{
    let m = ws.to_multiset();
    lemma_text_lt_total(ws[i].turn_path@, ws[j].turn_path@);
    lemma_text_lt_total(ws[j].turn_path@, ws[i].turn_path@);
    if j < i {
        assert(turn_before(
            path_rank(m, ws[j]),
            ws[j].turn_path@,
            path_rank(m, ws[i]),
            ws[i].turn_path@,
        ));
    }
    if text_lt(ws[i].turn_path@, ws[j].turn_path@) && text_lt(
        ws[j].turn_path@,
        ws[i].turn_path@,
    ) {
        lemma_text_lt_trans(ws[i].turn_path@, ws[j].turn_path@, ws[i].turn_path@);
    }
}

/// The worker with the lowest number of its path is the path's first.
pub proof fn law_lowest_number_ranks_first(m: Multiset<WorkerChannels>, w: WorkerChannels)
    requires
        forall|o: WorkerChannels|
            #[trigger] m.count(o) > 0 && o.turn_path@ == w.turn_path@ ==> w.id <= o.id,
    ensures
        path_rank(m, w) == 0,
{
    broadcast use vstd::multiset::group_multiset_axioms;

    assert(below_on_path(m, w.turn_path@, w.id) =~= Multiset::empty());
}

} // verus!
