//! Graph algorithms over nodes numbered `0..n` and a list of directed links.
//!
//! These are the workhorses behind [`crate::dag::DAG`]: Kahn's topological ordering,
//! cycle extraction, and the layering of a graph into groups that can run in parallel.

use vstd::prelude::*;
use vstd::set_lib::*;

verus! {

/// Every link joins two nodes below `n`.
pub open spec fn links_in_range(l: Seq<(usize, usize)>, n: nat) -> bool {
    forall|k: int| 0 <= k < l.len() ==> (#[trigger] l[k]).0 < n && l[k].1 < n
}

/// Whether there is a link from `a` to `b`.
pub open spec fn has_link(l: Seq<(usize, usize)>, a: usize, b: usize) -> bool {
    exists|k: int| 0 <= k < l.len() && #[trigger] l[k] == (a, b)
}

/// `c` is a closed walk along links: at least two entries, first equals last.
pub open spec fn is_link_cycle(l: Seq<(usize, usize)>, c: Seq<usize>) -> bool {
    &&& c.len() >= 2
    &&& c[0] == c.last()
    &&& forall|i: int| 0 <= i < c.len() - 1 ==> has_link(l, #[trigger] c[i], c[i + 1])
}

/// Every link whose two ends appear in `o` has its start placed before its end.
pub open spec fn respects_links(l: Seq<(usize, usize)>, o: Seq<usize>) -> bool {
    forall|k: int, i: int, j: int|
        #![trigger l[k], o[i], o[j]]
        0 <= k < l.len() && 0 <= i < o.len() && 0 <= j < o.len() && o[i] == l[k].0 && o[j]
            == l[k].1 ==> i < j
}

/// Among the first `k` links, the number that end at `v` and start at a node not yet done.
pub open spec fn open_in(l: Seq<(usize, usize)>, done: Seq<bool>, v: usize, k: int) -> nat
    decreases k,
{
    if k <= 0 {
        0
    } else {
        open_in(l, done, v, k - 1) + if l[k - 1].1 == v && !done[l[k - 1].0 as int] {
            1nat
        } else {
            0nat
        }
    }
}

/// Among the first `k` links, the number that go from `u` to `v`.
pub open spec fn pair_count(l: Seq<(usize, usize)>, u: usize, v: usize, k: int) -> nat
    decreases k,
{
    if k <= 0 {
        0
    } else {
        pair_count(l, u, v, k - 1) + if l[k - 1] == (u, v) {
            1nat
        } else {
            0nat
        }
    }
}

/// Marking `u` done removes exactly the links from `u` from every count.
pub proof fn lemma_open_in_mark(l: Seq<(usize, usize)>, done: Seq<bool>, u: usize, v: usize, k: int)
    requires
        0 <= k <= l.len(),
        u < done.len(),
        !done[u as int],
        links_in_range(l, done.len()),
    ensures
        open_in(l, done.update(u as int, true), v, k) + pair_count(l, u, v, k) == open_in(
            l,
            done,
            v,
            k,
        ),
    decreases k,
{
    if k > 0 {
        lemma_open_in_mark(l, done, u, v, k - 1);
        let e = l[k - 1];
        assert(e.0 < done.len());
        if e.0 == u {
            assert(done.update(u as int, true)[e.0 as int]);
        } else {
            assert(done.update(u as int, true)[e.0 as int] == done[e.0 as int]);
        }
    }
}

/// A count of zero means every link into `v` starts at a done node.
pub proof fn lemma_open_in_zero(l: Seq<(usize, usize)>, done: Seq<bool>, v: usize, k: int)
    requires
        0 <= k <= l.len(),
        open_in(l, done, v, k) == 0,
    ensures
        forall|j: int| 0 <= j < k && (#[trigger] l[j]).1 == v ==> done[l[j].0 as int],
    decreases k,
{
    if k > 0 {
        lemma_open_in_zero(l, done, v, k - 1);
    }
}

/// A positive count means some link into `v` starts at a node not yet done.
pub proof fn lemma_open_in_pos(l: Seq<(usize, usize)>, done: Seq<bool>, v: usize, k: int)
    requires
        0 <= k <= l.len(),
        open_in(l, done, v, k) > 0,
    ensures
        exists|j: int| 0 <= j < k && (#[trigger] l[j]).1 == v && !done[l[j].0 as int],
    decreases k,
{
    if k > 0 {
        if open_in(l, done, v, k - 1) > 0 {
            lemma_open_in_pos(l, done, v, k - 1);
        } else {
            assert(l[k - 1].1 == v && !done[l[k - 1].0 as int]);
        }
    }
}

/// A count never exceeds the number of links looked at.
pub proof fn lemma_open_in_bound(l: Seq<(usize, usize)>, done: Seq<bool>, v: usize, k: int)
    requires
        0 <= k,
    ensures
        open_in(l, done, v, k) <= k,
    decreases k,
{
    if k > 0 {
        lemma_open_in_bound(l, done, v, k - 1);
    }
}

/// Pair counts grow with the prefix.
pub proof fn lemma_pair_count_mono(l: Seq<(usize, usize)>, u: usize, v: usize, j: int, k: int)
    requires
        0 <= j <= k,
    ensures
        pair_count(l, u, v, j) <= pair_count(l, u, v, k),
    decreases k,
{
    if j < k {
        lemma_pair_count_mono(l, u, v, j, k - 1);
    }
}

/// A positive pair count means a link from `u` to `v`.
pub proof fn lemma_pair_count_pos(l: Seq<(usize, usize)>, u: usize, v: usize, k: int)
    requires
        0 <= k <= l.len(),
        pair_count(l, u, v, k) > 0,
    ensures
        has_link(l, u, v),
    decreases k,
{
    if k > 0 {
        if pair_count(l, u, v, k - 1) > 0 {
            lemma_pair_count_pos(l, u, v, k - 1);
        } else {
            assert(l[k - 1] == (u, v));
        }
    }
}

/// A sequence of distinct numbers below `n` has at most `n` entries.
pub proof fn lemma_distinct_below(s: Seq<usize>, n: nat)
    requires
        s.no_duplicates(),
        forall|i: int| 0 <= i < s.len() ==> s[i] < n,
    ensures
        s.len() <= n,
{
    let t = s.map_values(|x: usize| x as int);
    assert forall|i: int, j: int| 0 <= i < t.len() && 0 <= j < t.len() && i != j implies t[i]
        != t[j] by {
        assert(s[i] != s[j]);
    }
    t.unique_seq_to_set();
    assert(t.to_set().subset_of(set_int_range(0, n as int))) by {
        assert forall|x: int| t.to_set().contains(x) implies set_int_range(0, n as int).contains(
            x,
        ) by {
            let i = choose|i: int| 0 <= i < t.len() && t[i] == x;
            assert(s[i] < n);
        }
    }
    lemma_int_range(0, n as int);
    lemma_len_subset(t.to_set(), set_int_range(0, n as int));
}

/// The link counts of a graph in which no node is done yet.
pub(crate) fn initial_counts(links: &Vec<(usize, usize)>, n: usize) -> (cnt: Vec<usize>)
    requires
        links_in_range(links@, n as nat),
    ensures
        cnt@.len() == n,
        forall|v: int| 0 <= v < n ==> cnt@[v] == open_in(links@, Seq::new(n as nat, |i: int| false), v as usize, links@.len() as int),
{
    let ghost none = Seq::new(n as nat, |i: int| false);
    let mut cnt: Vec<usize> = Vec::new();
    let mut v: usize = 0;
    while v < n
        invariant
            v <= n,
            cnt@.len() == v,
            forall|w: int| 0 <= w < v ==> cnt@[w] == 0,
        decreases n - v,
    {
        cnt.push(0);
        v = v + 1;
    }
    let mut k: usize = 0;
    while k < links.len()
        invariant
            k <= links@.len(),
            cnt@.len() == n,
            links_in_range(links@, n as nat),
            none == Seq::new(n as nat, |i: int| false),
            forall|w: int| 0 <= w < n ==> cnt@[w] == open_in(links@, none, w as usize, k as int),
        decreases links@.len() - k,
    {
        let t = links[k].1;
        proof {
            lemma_open_in_bound(links@, none, t, k as int);
            assert(links@[k as int].0 < n);
        }
        cnt[t] = cnt[t] + 1;
        k = k + 1;
    }
    cnt
}

/// The outcome of Kahn's algorithm: the order in which nodes were taken, which nodes were
/// taken, and for each node the number of links into it from nodes never taken.
pub struct KahnRun {
    pub order: Vec<usize>,
    pub done: Vec<bool>,
    pub cnt: Vec<usize>,
}

/// The facts a finished run of Kahn's algorithm establishes.
pub open spec fn kahn_result(l: Seq<(usize, usize)>, n: nat, r: KahnRun) -> bool {
    &&& r.done@.len() == n
    &&& r.cnt@.len() == n
    &&& r.order@.no_duplicates()
    &&& forall|i: int| 0 <= i < r.order@.len() ==> (#[trigger] r.order@[i]) < n
    &&& forall|v: int| 0 <= v < n ==> (r.done@[v] <==> r.order@.contains(v as usize))
    &&& forall|v: int| 0 <= v < n ==> #[trigger] r.cnt@[v] == open_in(l, r.done@, v as usize, l.len() as int)
    &&& forall|v: int| 0 <= v < n && !r.done@[v] ==> #[trigger] r.cnt@[v] > 0
    &&& respects_links(l, r.order@)
}

/// Kahn's algorithm: nodes with no pending incoming link are taken first-in first-out,
/// starting from those that have none at all, in increasing number.
pub fn kahn(links: &Vec<(usize, usize)>, n: usize) -> (r: KahnRun)
    requires
        links_in_range(links@, n as nat),
    ensures
        kahn_result(links@, n as nat, r),
{
    let ghost l = links@;
    let m = links.len();
    let mut cnt = initial_counts(links, n);
    let ghost none = Seq::new(n as nat, |i: int| false);
    let mut done: Vec<bool> = Vec::new();
    let mut inq: Vec<bool> = Vec::new();
    let mut queue: Vec<usize> = Vec::new();
    let mut v: usize = 0;
    while v < n
        invariant
            v <= n,
            cnt@.len() == n,
            done@.len() == v,
            inq@.len() == v,
            forall|w: int| 0 <= w < v ==> !done@[w],
            forall|w: int| 0 <= w < n ==> cnt@[w] == open_in(l, none, w as usize, m as int),
            queue@.no_duplicates(),
            forall|i: int| 0 <= i < queue@.len() ==> (#[trigger] queue@[i]) < v,
            forall|w: int| 0 <= w < v ==> (inq@[w] <==> queue@.contains(w as usize)),
            forall|w: int| 0 <= w < v ==> (inq@[w] <==> cnt@[w] == 0),
        decreases n - v,
    {
        done.push(false);
        let ghost q_before = queue@;
        if cnt[v] == 0 {
            queue.push(v);
            inq.push(true);
        } else {
            inq.push(false);
        }
        proof {
            assert forall|w: int| 0 <= w <= v implies (inq@[w] <==> queue@.contains(w as usize)) by {
                if w < v {
                    if queue@.contains(w as usize) {
                        let i = choose|i: int| 0 <= i < queue@.len() && queue@[i] == w as usize;
                        assert(i < q_before.len());
                        assert(q_before[i] == w);
                    }
                    if q_before.contains(w as usize) {
                        let i = choose|i: int| 0 <= i < q_before.len() && q_before[i] == w as usize;
                        assert(queue@[i] == w);
                    }
                } else {
                    if cnt@[v as int] == 0 {
                        assert(queue@[queue@.len() - 1] == v);
                    } else {
                        assert(queue@ == q_before);
                    }
                }
            }
        }
        v = v + 1;
    }
    proof {
        assert(done@ =~= none);
        assert forall|k: int| 0 <= k < l.len() && inq@[(#[trigger] l[k]).1 as int] implies done@[l[k].0 as int] by {
            assert(l[k].1 < n);
            lemma_open_in_zero(l, none, l[k].1, m as int);
        }
        assert forall|k: int, i: int, j: int|
            #![trigger l[k], queue@[i], queue@[j]]
            0 <= k < l.len() && 0 <= i < queue@.len() && 0 <= j < queue@.len() && queue@[i]
                == l[k].0 && queue@[j] == l[k].1 implies i < j by {
            assert(queue@.contains(l[k].1));
            assert(l[k].1 < n);
            assert(inq@[l[k].1 as int]);
            lemma_open_in_zero(l, none, l[k].1, m as int);
        }
    }
    let mut head: usize = 0;
    while head < queue.len()
        invariant
            m == l.len(),
            links@ == l,
            links_in_range(l, n as nat),
            cnt@.len() == n,
            done@.len() == n,
            inq@.len() == n,
            head <= queue@.len(),
            queue@.no_duplicates(),
            forall|i: int| 0 <= i < queue@.len() ==> (#[trigger] queue@[i]) < n,
            forall|w: int| 0 <= w < n ==> (inq@[w] <==> queue@.contains(w as usize)),
            forall|w: int| 0 <= w < n ==> (done@[w] <==> exists|i: int| 0 <= i < head && queue@[i] == w),
            forall|w: int| 0 <= w < n ==> #[trigger] cnt@[w] == open_in(l, done@, w as usize, m as int),
            forall|w: int| 0 <= w < n ==> (#[trigger] inq@[w] <==> cnt@[w] == 0),
            forall|k: int| 0 <= k < l.len() && inq@[(#[trigger] l[k]).1 as int] ==> done@[l[k].0 as int],
            respects_links(l, queue@),
        decreases n - head,
    {
        proof {
            lemma_distinct_below(queue@, n as nat);
        }
        let u = queue[head];
        let ghost done_old = done@;
        proof {
            assert(!done_old[u as int]) by {
                if done_old[u as int] {
                    let i = choose|i: int| 0 <= i < head && queue@[i] == u;
                    assert(queue@[i] == queue@[head as int]);
                }
            }
        }
        done.set(u, true);
        head = head + 1;
        let ghost cnt_old = cnt@;
        let ghost queue_old = queue@;
        proof {
            assert forall|w: int| 0 <= w < n implies (done@[w] <==> exists|i: int| 0 <= i < head && queue@[i] == w) by {
                if w == u {
                    assert(queue@[head - 1] == w);
                } else if exists|i: int| 0 <= i < head && queue@[i] == w {
                    let i = choose|i: int| 0 <= i < head && queue@[i] == w;
                    assert(i < head - 1);
                }
            }
            assert forall|w: int| 0 <= w < n implies open_in(l, done@, w as usize, m as int) + pair_count(l, u, w as usize, m as int) == cnt_old[w] by {
                lemma_open_in_mark(l, done_old, u, w as usize, m as int);
            }
        }
        let mut k: usize = 0;
        while k < m
            invariant
                m == l.len(),
                links@ == l,
                links_in_range(l, n as nat),
                u < n,
                cnt_old.len() == n,
                done@[u as int],
                cnt@.len() == n,
                done@.len() == n,
                inq@.len() == n,
                0 < head <= queue@.len(),
                k <= m,
                queue@.no_duplicates(),
                forall|i: int| 0 <= i < queue@.len() ==> (#[trigger] queue@[i]) < n,
                forall|w: int| 0 <= w < n ==> (inq@[w] <==> queue@.contains(w as usize)),
                forall|w: int| 0 <= w < n ==> (done@[w] <==> exists|i: int| 0 <= i < head && queue@[i] == w),
                forall|w: int| 0 <= w < n ==> open_in(l, done@, w as usize, m as int) + pair_count(l, u, w as usize, m as int) == cnt_old[w],
                forall|w: int| 0 <= w < n ==> #[trigger] cnt@[w] + pair_count(l, u, w as usize, k as int) == cnt_old[w],
                forall|w: int| 0 <= w < n ==> (#[trigger] inq@[w] <==> cnt@[w] == 0),
                forall|k2: int| 0 <= k2 < l.len() && inq@[(#[trigger] l[k2]).1 as int] ==> done@[l[k2].0 as int],
                respects_links(l, queue@),
            decreases m - k,
        {
            let (a, b) = links[k];
            proof {
                assert(l[k as int] == (a, b));
                assert(b < n);
            }
            if a == u {
                proof {
                    lemma_pair_count_mono(l, u, b, (k + 1) as int, m as int);
                    assert(pair_count(l, u, b, (k + 1) as int) == pair_count(l, u, b, k as int) + 1);
                }
                cnt[b] = cnt[b] - 1;
                proof {
                    assert forall|w: int| 0 <= w < n implies #[trigger] cnt@[w] + pair_count(l, u, w as usize, (k + 1) as int) == cnt_old[w] by {
                        if w != b {
                            assert(l[k as int] != (u, w as usize));
                        }
                    }
                    // `b` had a pending link from `u`, so it was not queued yet
                    assert(!inq@[b as int]) by {
                        if inq@[b as int] {
                            assert(done@[u as int]);
                        }
                    }
                }
                if cnt[b] == 0 {
                    let ghost q_before = queue@;
                    queue.push(b);
                    inq.set(b, true);
                    proof {
                        lemma_pair_count_mono(l, u, b, (k + 1) as int, m as int);
                        assert(open_in(l, done@, b, m as int) == 0);
                        lemma_open_in_zero(l, done@, b, m as int);
                        assert(queue@.no_duplicates()) by {
                            assert(!q_before.contains(b));
                        }
                        assert forall|w: int| 0 <= w < n implies (inq@[w] <==> queue@.contains(w as usize)) by {
                            if w == b {
                                assert(queue@[queue@.len() - 1] == b);
                            } else if queue@.contains(w as usize) {
                                let i = choose|i: int| 0 <= i < queue@.len() && queue@[i] == w as usize;
                                assert(i < q_before.len());
                                assert(q_before[i] == w);
                            } else if q_before.contains(w as usize) {
                                let i = choose|i: int| 0 <= i < q_before.len() && q_before[i] == w as usize;
                                assert(queue@[i] == w);
                            }
                        }
                        assert forall|w: int| 0 <= w < n implies (done@[w] <==> exists|i: int| 0 <= i < head && queue@[i] == w) by {
                            if exists|i: int| 0 <= i < head && q_before[i] == w {
                                let i = choose|i: int| 0 <= i < head && q_before[i] == w;
                                assert(queue@[i] == w);
                            }
                            if exists|i: int| 0 <= i < head && queue@[i] == w {
                                let i = choose|i: int| 0 <= i < head && queue@[i] == w;
                                assert(q_before[i] == w);
                            }
                        }
                        assert forall|k2: int, i: int, j: int|
                            #![trigger l[k2], queue@[i], queue@[j]]
                            0 <= k2 < l.len() && 0 <= i < queue@.len() && 0 <= j < queue@.len() && queue@[i]
                                == l[k2].0 && queue@[j] == l[k2].1 implies i < j by {
                            let last = queue@.len() - 1;
                            if i == last {
                                // `b` was not done, so it is no source of a queued node
                                assert(l[k2].0 == b);
                                assert(!done@[b as int]) by {
                                    if done@[b as int] {
                                        let i2 = choose|i2: int| 0 <= i2 < head && queue@[i2] == b;
                                        assert(q_before[i2] == b);
                                    }
                                }
                                if j != last {
                                    assert(q_before[j] == l[k2].1);
                                    assert(inq@[l[k2].1 as int]);
                                }
                            } else if j == last {
                                assert(l[k2].1 == b);
                                assert(done@[l[k2].0 as int]);
                                let i2 = choose|i2: int| 0 <= i2 < head && queue@[i2] == l[k2].0;
                                assert(queue@[i2] == queue@[i]);
                            } else {
                                assert(q_before[i] == l[k2].0);
                                assert(q_before[j] == l[k2].1);
                            }
                        }
                    }
                }
            } else {
                proof {
                    assert forall|w: int| 0 <= w < n implies #[trigger] cnt@[w] + pair_count(l, u, w as usize, (k + 1) as int) == cnt_old[w] by {
                        assert(l[k as int] != (u, w as usize));
                    }
                }
            }
            k = k + 1;
        }
        proof {
            assert forall|w: int| 0 <= w < n implies #[trigger] cnt@[w] == open_in(l, done@, w as usize, m as int) by {}
        }
    }
    proof {
        assert forall|w: int| 0 <= w < n implies (done@[w] <==> queue@.contains(w as usize)) by {
            if queue@.contains(w as usize) {
                let i = choose|i: int| 0 <= i < queue@.len() && queue@[i] == w as usize;
                assert(i < head);
            }
        }
        assert forall|w: int| 0 <= w < n && !done@[w] implies #[trigger] cnt@[w] > 0 by {
            assert(!inq@[w]);
        }
    }
    let r = KahnRun { order: queue, done, cnt };
    assert(r.order@ == queue@);
    r
}

/// Walks backwards from `start` along links whose starts are not done, until a node repeats;
/// returns the closed walk found, in the direction of the links.
pub fn back_cycle(links: &Vec<(usize, usize)>, n: usize, done: &Vec<bool>, start: usize) -> (c: Vec<usize>)
    requires
        links_in_range(links@, n as nat),
        done@.len() == n,
        start < n,
        !done@[start as int],
        forall|v: int| 0 <= v < n && !done@[v] ==> open_in(links@, done@, v as usize, links@.len() as int) > 0,
    ensures
        is_link_cycle(links@, c@),
        forall|i: int| 0 <= i < c@.len() ==> (#[trigger] c@[i]) < n,
{
    let ghost l = links@;
    let m = links.len();
    let mut seen: Vec<usize> = Vec::new();
    let mut v: usize = 0;
    while v < n
        invariant
            v <= n,
            seen@.len() == v,
            forall|w: int| 0 <= w < v ==> seen@[w] == n,
        decreases n - v,
    {
        seen.push(n);
        v = v + 1;
    }
    let mut walk: Vec<usize> = Vec::new();
    walk.push(start);
    seen.set(start, 0);
    proof {
        assert(walk@[0] == start);
        assert forall|w: int| 0 <= w < n implies (#[trigger] seen@[w] < n <==> walk@.contains(w as usize)) by {
            if w == start {
                assert(walk@[0] == start);
            } else if walk@.contains(w as usize) {
                let j = choose|j: int| 0 <= j < walk@.len() && walk@[j] == w as usize;
                assert(j == 0);
            }
        }
    }
    loop
        invariant
            m == l.len(),
            links@ == l,
            links_in_range(l, n as nat),
            done@.len() == n,
            seen@.len() == n,
            forall|w: int| 0 <= w < n && !done@[w] ==> open_in(l, done@, w as usize, m as int) > 0,
            walk@.len() >= 1,
            walk@.no_duplicates(),
            forall|i: int| 0 <= i < walk@.len() ==> (#[trigger] walk@[i]) < n && !done@[walk@[i] as int],
            forall|w: int| 0 <= w < n ==> (#[trigger] seen@[w] < n <==> walk@.contains(w as usize)),
            forall|i: int| 0 <= i < walk@.len() ==> seen@[#[trigger] walk@[i] as int] == i,
            forall|i: int| 0 <= i < walk@.len() - 1 ==> has_link(l, #[trigger] walk@[i + 1], walk@[i]),
        decreases n - walk@.len(),
    {
        let cur = walk[walk.len() - 1];
        proof {
            lemma_open_in_pos(l, done@, cur, m as int);
        }
        let mut k: usize = 0;
        let mut found: usize = 0;
        let mut got = false;
        while k < m && !got
            invariant
                m == l.len(),
                links@ == l,
                k <= m,
                done@.len() == n,
                links_in_range(l, n as nat),
                got ==> found < m && l[found as int].1 == cur && !done@[l[found as int].0 as int],
                !got ==> forall|j: int| 0 <= j < k ==> !((#[trigger] l[j]).1 == cur && !done@[l[j].0 as int]),
            decreases m - k + if got { 0int } else { 1int },
        {
            let (a, b) = links[k];
            if b == cur && !done[a] {
                found = k;
                got = true;
            } else {
                k = k + 1;
            }
        }
        proof {
            if !got {
                let j = choose|j: int| 0 <= j < m && (#[trigger] l[j]).1 == cur && !done@[l[j].0 as int];
                assert(false);
            }
        }
        let u = links[found].0;
        proof {
            assert(l[found as int] == (u, cur));
            assert(has_link(l, u, cur));
        }
        let s = seen[u];
        if s < n {
            // `u` is already on the walk at position `s`: close the cycle
            let mut c: Vec<usize> = Vec::new();
            c.push(u);
            let mut i = walk.len();
            proof {
                assert(walk@.contains(u));
                assert(s < walk@.len() && walk@[s as int] == u) by {
                    let j = choose|j: int| 0 <= j < walk@.len() && walk@[j] == u;
                    assert(seen@[walk@[j] as int] == j);
                }
            }
            while i > s
                invariant
                    s < i <= walk@.len() || i == s,
                    s < walk@.len(),
                    walk@[s as int] == u,
                    c@.len() == walk@.len() - i + 1,
                    c@[0] == u,
                    forall|j: int| 1 <= j < c@.len() ==> c@[j] == walk@[walk@.len() - j],
                    forall|j: int| 0 <= j < c@.len() ==> (#[trigger] c@[j]) < n,
                    forall|j: int| 0 <= j < c@.len() - 1 ==> has_link(l, #[trigger] c@[j], c@[j + 1]),
                    has_link(l, u, walk@[walk@.len() - 1]),
                    forall|j: int| 0 <= j < walk@.len() ==> (#[trigger] walk@[j]) < n,
                    forall|j: int| 0 <= j < walk@.len() - 1 ==> has_link(l, #[trigger] walk@[j + 1], walk@[j]),
                decreases i,
            {
                i = i - 1;
                let ghost before = c@;
                c.push(walk[i]);
                proof {
                    assert forall|j: int| 0 <= j < c@.len() - 1 implies has_link(l, #[trigger] c@[j], c@[j + 1]) by {
                        if j < before.len() - 1 {
                            assert(c@[j] == before[j]);
                            assert(c@[j + 1] == before[j + 1]);
                        } else if j == 0 {
                            assert(i == walk@.len() - 1);
                        } else {
                            assert(c@[j] == walk@[i + 1]);
                            assert(c@[j + 1] == walk@[i as int]);
                        }
                    }
                }
            }
            return c;
        }
        proof {
            assert(!walk@.contains(u));
            lemma_distinct_below(walk@.push(u), n as nat);
            assert(!done@[u as int]);
        }
        let ghost before = walk@;
        walk.push(u);
        seen.set(u, walk.len() - 1);
        proof {
            assert forall|w: int| 0 <= w < n implies (#[trigger] seen@[w] < n <==> walk@.contains(w as usize)) by {
                if w != u {
                    if before.contains(w as usize) {
                        let j = choose|j: int| 0 <= j < before.len() && before[j] == w as usize;
                        assert(walk@[j] == w);
                    }
                    if walk@.contains(w as usize) {
                        let j = choose|j: int| 0 <= j < walk@.len() && walk@[j] == w as usize;
                        assert(j < before.len());
                        assert(before[j] == w);
                    }
                } else {
                    assert(walk@[walk@.len() - 1] == u);
                }
            }
            assert forall|i: int| 0 <= i < walk@.len() implies seen@[#[trigger] walk@[i] as int] == i by {
                if i < before.len() {
                    assert(walk@[i] == before[i]);
                    assert(before[i] != u);
                }
            }
            assert forall|i: int| 0 <= i < walk@.len() - 1 implies has_link(l, #[trigger] walk@[i + 1], walk@[i]) by {
                if i < before.len() - 1 {
                    assert(walk@[i + 1] == before[i + 1]);
                    assert(walk@[i] == before[i]);
                }
            }
        }
    }
}

/// An order that places every link's start before its end admits no cycle through its nodes.
pub proof fn lemma_order_excludes_cycle(l: Seq<(usize, usize)>, o: Seq<usize>, c: Seq<usize>)
    requires
        respects_links(l, o),
        forall|i: int| 0 <= i < c.len() ==> o.contains(#[trigger] c[i]),
    ensures
        !is_link_cycle(l, c),
{
    if is_link_cycle(l, c) {
        assert forall|i: int| 1 <= i < c.len() implies o.index_of(c[0]) < o.index_of(#[trigger] c[i]) by {
            lemma_rising(l, o, c, i);
        }
        let last = c.len() - 1;
        assert(o.index_of(c[0]) < o.index_of(c[last]));
    }
}

proof fn lemma_rising(l: Seq<(usize, usize)>, o: Seq<usize>, c: Seq<usize>, i: int)
    requires
        respects_links(l, o),
        is_link_cycle(l, c),
        forall|j: int| 0 <= j < c.len() ==> o.contains(#[trigger] c[j]),
        1 <= i < c.len(),
    ensures
        o.index_of(c[0]) < o.index_of(c[i]),
    decreases i,
{
    if i > 1 {
        lemma_rising(l, o, c, i - 1);
    }
    assert(has_link(l, c[i - 1], c[i]));
    let k = choose|k: int| 0 <= k < l.len() && #[trigger] l[k] == (c[i - 1], c[i]);
    assert(o.contains(c[i - 1]));
    assert(o.contains(c[i]));
    let a = o.index_of(c[i - 1]);
    let b = o.index_of(c[i]);
    assert(o[a] == l[k].0);
    assert(o[b] == l[k].1);
}

/// Marks `u` done and lowers the count of every node `u` links to.
fn mark_done(links: &Vec<(usize, usize)>, n: usize, done: &mut Vec<bool>, cnt: &mut Vec<usize>, u: usize)
    requires
        links_in_range(links@, n as nat),
        old(done)@.len() == n,
        old(cnt)@.len() == n,
        u < n,
        !old(done)@[u as int],
        forall|w: int| 0 <= w < n ==> #[trigger] old(cnt)@[w] == open_in(links@, old(done)@, w as usize, links@.len() as int),
    ensures
        final(done)@ == old(done)@.update(u as int, true),
        final(cnt)@.len() == n,
        forall|w: int| 0 <= w < n ==> #[trigger] final(cnt)@[w] == open_in(links@, final(done)@, w as usize, links@.len() as int),
        forall|w: int| 0 <= w < n ==> final(cnt)@[w] <= old(cnt)@[w],
        forall|w: int| 0 <= w < n && #[trigger] final(cnt)@[w] < old(cnt)@[w] ==> has_link(links@, u, w as usize),
{
    let ghost l = links@;
    let m = links.len();
    let ghost done_old = done@;
    let ghost cnt_old = cnt@;
    done.set(u, true);
    proof {
        assert forall|w: int| 0 <= w < n implies open_in(l, done@, w as usize, m as int) + pair_count(l, u, w as usize, m as int) == cnt_old[w] by {
            lemma_open_in_mark(l, done_old, u, w as usize, m as int);
        }
    }
    let mut k: usize = 0;
    while k < m
        invariant
            m == l.len(),
            links@ == l,
            links_in_range(l, n as nat),
            k <= m,
            cnt@.len() == n,
            cnt_old.len() == n,
            forall|w: int| 0 <= w < n ==> open_in(l, done@, w as usize, m as int) + pair_count(l, u, w as usize, m as int) == cnt_old[w],
            forall|w: int| 0 <= w < n ==> #[trigger] cnt@[w] + pair_count(l, u, w as usize, k as int) == cnt_old[w],
        decreases m - k,
    {
        let (a, b) = links[k];
        proof {
            assert(l[k as int] == (a, b));
            assert(b < n);
        }
        if a == u {
            proof {
                lemma_pair_count_mono(l, u, b, (k + 1) as int, m as int);
            }
            cnt.set(b, cnt[b] - 1);
        }
        proof {
            assert forall|w: int| 0 <= w < n implies #[trigger] cnt@[w] + pair_count(l, u, w as usize, (k + 1) as int) == cnt_old[w] by {
                if !(a == u && w == b) {
                    assert(l[k as int] != (u, w as usize));
                }
            }
        }
        k = k + 1;
    }
    proof {
        assert forall|w: int| 0 <= w < n && #[trigger] cnt@[w] < cnt_old[w] implies has_link(l, u, w as usize) by {
            lemma_pair_count_pos(l, u, w as usize, m as int);
        }
    }
}

proof fn lemma_prefix_mark(
    done_start: Seq<bool>,
    done_before: Seq<bool>,
    done_after: Seq<bool>,
    lay: Seq<usize>,
    i: int,
    n: nat,
)
    requires
        0 <= i < lay.len(),
        lay[i] < n,
        done_before.len() == n,
        done_after == done_before.update(lay[i] as int, true),
        forall|x: usize| x < n ==> (done_before[x as int] <==> (done_start[x as int] || lay.take(i).contains(x))),
    ensures
        forall|x: usize| x < n ==> (done_after[x as int] <==> (done_start[x as int] || lay.take(i + 1).contains(x))),
{
    let a = lay.take(i);
    let b = lay.take(i + 1);
    assert(b =~= a.push(lay[i]));
    assert forall|x: usize| #[trigger] b.contains(x) <==> (a.contains(x) || x == lay[i]) by {
        if b.contains(x) {
            let t = choose|t: int| 0 <= t < b.len() && b[t] == x;
            if t < i {
                assert(a[t] == x);
            }
        }
        if a.contains(x) {
            let t = choose|t: int| 0 <= t < a.len() && a[t] == x;
            assert(b[t] == x);
        }
        if x == lay[i] {
            assert(b[i] == x);
        }
    }
}

/// `x` belongs to layer `j`.
pub open spec fn in_layer(ls: Seq<Seq<usize>>, x: usize, j: int) -> bool {
    0 <= j < ls.len() && ls[j].contains(x)
}

/// `x` belongs to some layer.
pub open spec fn placed(ls: Seq<Seq<usize>>, x: usize) -> bool {
    exists|j: int| #[trigger] in_layer(ls, x, j)
}

/// `ls` splits the nodes `0..n` into non-empty layers such that every link leads to a later
/// layer, and every node past the first layer has a link from the layer just before it.
pub open spec fn is_layering(l: Seq<(usize, usize)>, n: nat, ls: Seq<Seq<usize>>) -> bool {
    &&& forall|j: int| 0 <= j < ls.len() ==> (#[trigger] ls[j]).len() > 0 && ls[j].no_duplicates()
    &&& forall|j: int, i: int| 0 <= j < ls.len() && 0 <= i < ls[j].len() ==> (#[trigger] ls[j][i]) < n
    &&& forall|x: usize, j1: int, j2: int| in_layer(ls, x, j1) && in_layer(ls, x, j2) ==> j1 == j2
    &&& forall|v: usize| v < n ==> #[trigger] placed(ls, v)
    &&& forall|k: int, ja: int, jb: int|
        #![trigger l[k], in_layer(ls, l[k].0, ja), in_layer(ls, l[k].1, jb)]
        0 <= k < l.len() && in_layer(ls, l[k].0, ja) && in_layer(ls, l[k].1, jb) ==> ja < jb
    &&& forall|x: usize, j: int| 1 <= j && #[trigger] in_layer(ls, x, j) ==> exists|y: usize|
        #[trigger] in_layer(ls, y, j - 1) && has_link(l, y, x)
}

/// What holds between rounds of [`layering`]: `gl` are the layers placed so far, `done` marks
/// their nodes, and `cnt` counts for each node its links from nodes not placed yet.
pub open spec fn layering_inv(l: Seq<(usize, usize)>, n: nat, done: Seq<bool>, cnt: Seq<usize>, gl: Seq<Seq<usize>>) -> bool {
    &&& forall|j: int| 0 <= j < gl.len() ==> (#[trigger] gl[j]).len() > 0 && gl[j].no_duplicates()
    &&& forall|j: int, i: int| 0 <= j < gl.len() && 0 <= i < gl[j].len() ==> (#[trigger] gl[j][i]) < n
    &&& forall|x: usize, j1: int, j2: int| in_layer(gl, x, j1) && in_layer(gl, x, j2) ==> j1 == j2
    &&& forall|w: usize| w < n ==> (done[w as int] <==> #[trigger] placed(gl, w))
    &&& forall|k: int, ja: int, jb: int|
        #![trigger l[k], in_layer(gl, l[k].0, ja), in_layer(gl, l[k].1, jb)]
        0 <= k < l.len() && in_layer(gl, l[k].0, ja) && in_layer(gl, l[k].1, jb) ==> ja < jb
    &&& forall|x: usize, j: int| 1 <= j && #[trigger] in_layer(gl, x, j) ==> exists|y: usize|
        #[trigger] in_layer(gl, y, j - 1) && has_link(l, y, x)
    &&& forall|x: usize| x < n && !done[x as int] && cnt[x as int] == 0 && gl.len() > 0 ==> exists|y: usize|
        #[trigger] in_layer(gl, y, gl.len() - 1) && has_link(l, y, x)
    &&& forall|k: int| 0 <= k < l.len() && done[(#[trigger] l[k]).1 as int] ==> done[l[k].0 as int]
}

/// Placing one more layer, made of all nodes ready after `gl`, keeps [`layering_inv`].
proof fn lemma_extend_layering(
    l: Seq<(usize, usize)>,
    n: nat,
    gl: Seq<Seq<usize>>,
    lay: Seq<usize>,
    done_start: Seq<bool>,
    cnt_start: Seq<usize>,
    done_end: Seq<bool>,
    cnt_end: Seq<usize>,
)
    requires
        links_in_range(l, n),
        done_start.len() == n,
        cnt_start.len() == n,
        done_end.len() == n,
        cnt_end.len() == n,
        layering_inv(l, n, done_start, cnt_start, gl),
        forall|w: usize| w < n ==> #[trigger] cnt_start[w as int] == open_in(l, done_start, w, l.len() as int),
        lay.no_duplicates(),
        lay.len() > 0,
        forall|t: int| 0 <= t < lay.len() ==> (#[trigger] lay[t]) < n,
        forall|x: usize| x < n ==> (#[trigger] lay.contains(x) <==> (!done_start[x as int] && cnt_start[x as int] == 0)),
        forall|x: usize| x < n ==> (#[trigger] done_end[x as int] <==> (done_start[x as int] || lay.contains(x))),
        forall|x: usize| x < n && #[trigger] cnt_end[x as int] < cnt_start[x as int] ==> exists|y: usize| lay.contains(y) && has_link(l, y, x),
    ensures
        layering_inv(l, n, done_end, cnt_end, gl.push(lay)),
{
    let newgl = gl.push(lay);
    let j_new = gl.len() as int;
    let m = l.len() as int;
    assert(newgl[j_new] == lay);
    assert forall|x: usize, j: int| #[trigger] in_layer(newgl, x, j) <==> (in_layer(gl, x, j) || (j == j_new && lay.contains(x))) by {
        if 0 <= j < j_new {
            assert(newgl[j] == gl[j]);
        }
    }
    assert forall|x: usize, j: int| lay.contains(x) implies !#[trigger] in_layer(gl, x, j) by {
        let t = choose|t: int| 0 <= t < lay.len() && lay[t] == x;
        assert(x < n);
        if in_layer(gl, x, j) {
            assert(placed(gl, x));
        }
    }
    assert forall|x: usize, j1: int, j2: int| in_layer(newgl, x, j1) && in_layer(newgl, x, j2) implies j1 == j2 by {
        if j1 == j_new && j2 != j_new {
            assert(in_layer(gl, x, j2));
        }
        if j2 == j_new && j1 != j_new {
            assert(in_layer(gl, x, j1));
        }
    }
    assert forall|w: usize| w < n implies (done_end[w as int] <==> #[trigger] placed(newgl, w)) by {
        if done_end[w as int] {
            if done_start[w as int] {
                assert(placed(gl, w));
                let j = choose|j: int| #[trigger] in_layer(gl, w, j);
                assert(in_layer(newgl, w, j));
            } else {
                assert(lay.contains(w));
                assert(in_layer(newgl, w, j_new));
            }
        }
        if placed(newgl, w) {
            let j = choose|j: int| #[trigger] in_layer(newgl, w, j);
            if j != j_new {
                assert(in_layer(gl, w, j));
                assert(placed(gl, w));
            }
        }
    }
    assert forall|k: int, ja: int, jb: int|
        #![trigger l[k], in_layer(newgl, l[k].0, ja), in_layer(newgl, l[k].1, jb)]
        0 <= k < l.len() && in_layer(newgl, l[k].0, ja) && in_layer(newgl, l[k].1, jb) implies ja < jb by {
        let a = l[k].0;
        let b = l[k].1;
        assert(a < n && b < n);
        if jb == j_new {
            assert(lay.contains(b));
            lemma_open_in_zero(l, done_start, b, m);
            assert(done_start[a as int]);
            assert(placed(gl, a));
            let ja2 = choose|j: int| #[trigger] in_layer(gl, a, j);
            assert(in_layer(newgl, a, ja2));
        } else {
            assert(in_layer(gl, b, jb));
            assert(placed(gl, b));
            if ja == j_new {
                assert(done_start[b as int]);
                assert(lay.contains(a));
                assert(done_start[a as int]);
            } else {
                assert(in_layer(gl, a, ja));
            }
        }
    }
    assert forall|x: usize, j: int| 1 <= j && #[trigger] in_layer(newgl, x, j) implies exists|y: usize|
        #[trigger] in_layer(newgl, y, j - 1) && has_link(l, y, x) by {
        if j == j_new {
            assert(lay.contains(x));
            let t = choose|t: int| 0 <= t < lay.len() && lay[t] == x;
            assert(x < n);
            assert(!done_start[x as int] && cnt_start[x as int] == 0);
            let y = choose|y: usize| #[trigger] in_layer(gl, y, gl.len() - 1) && has_link(l, y, x);
            assert(in_layer(newgl, y, j - 1));
        } else {
            assert(in_layer(gl, x, j));
            let y = choose|y: usize| #[trigger] in_layer(gl, y, j - 1) && has_link(l, y, x);
            assert(in_layer(newgl, y, j - 1));
        }
    }
    assert forall|x: usize| x < n && !done_end[x as int] && cnt_end[x as int] == 0 && newgl.len() > 0 implies exists|y: usize|
        #[trigger] in_layer(newgl, y, newgl.len() - 1) && has_link(l, y, x) by {
        assert(!done_start[x as int]);
        assert(!lay.contains(x));
        assert(cnt_start[x as int] > 0);
        assert(cnt_end[x as int] < cnt_start[x as int]);
        let y = choose|y: usize| lay.contains(y) && has_link(l, y, x);
        assert(newgl.len() - 1 == j_new);
        assert(in_layer(newgl, y, newgl.len() - 1));
    }
    assert forall|j: int| 0 <= j < newgl.len() implies (#[trigger] newgl[j]).len() > 0 && newgl[j].no_duplicates() by {
        if j < j_new {
            assert(newgl[j] == gl[j]);
        }
    }
    assert forall|j: int, t: int| 0 <= j < newgl.len() && 0 <= t < newgl[j].len() implies (#[trigger] newgl[j][t]) < n by {
        if j < j_new {
            assert(newgl[j] == gl[j]);
        }
    }
    assert forall|k: int| 0 <= k < l.len() && done_end[(#[trigger] l[k]).1 as int] implies done_end[l[k].0 as int] by {
        let b = l[k].1;
        let a = l[k].0;
        assert(a < n && b < n);
        if !done_start[b as int] {
            assert(lay.contains(b));
            lemma_open_in_zero(l, done_start, b, m);
        }
        assert(done_start[a as int]);
    }
}

/// The first node not done, if any.
fn first_open(done: &Vec<bool>) -> (r: Option<usize>)
    ensures
        r is None ==> forall|v: int| 0 <= v < done@.len() ==> done@[v],
        r matches Some(v) ==> v < done@.len() && !done@[v as int],
{
    let mut v: usize = 0;
    while v < done.len()
        invariant
            v <= done@.len(),
            forall|w: int| 0 <= w < v ==> done@[w],
        decreases done@.len() - v,
    {
        if !done[v] {
            return Some(v);
        }
        v = v + 1;
    }
    None
}

/// The number of entries that are `false`.
pub open spec fn count_open(s: Seq<bool>) -> nat
    decreases s.len(),
{
    if s.len() == 0 {
        0
    } else {
        count_open(s.drop_last()) + if s.last() {
            0nat
        } else {
            1nat
        }
    }
}

proof fn lemma_count_open_update(s: Seq<bool>, u: int)
    requires
        0 <= u < s.len(),
        !s[u],
    ensures
        count_open(s.update(u, true)) + 1 == count_open(s),
    decreases s.len(),
{
    let t = s.update(u, true);
    if u < s.len() - 1 {
        assert(t.drop_last() =~= s.drop_last().update(u, true));
        lemma_count_open_update(s.drop_last(), u);
    } else {
        assert(t.drop_last() =~= s.drop_last());
    }
}

/// Splits the nodes into layers: each layer holds, in increasing number, the nodes all of
/// whose incoming links start in earlier layers. `None` when some nodes can never be placed,
/// which happens exactly when the links close a cycle; the cycle is then reported.
pub fn layering(links: &Vec<(usize, usize)>, n: usize) -> (r: Result<Vec<Vec<usize>>, Vec<usize>>)
    requires
        links_in_range(links@, n as nat),
    ensures
        r matches Ok(ls) ==> is_layering(links@, n as nat, ls@.map_values(|v: Vec<usize>| v@)),
        r matches Err(c) ==> is_link_cycle(links@, c@) && forall|i: int| 0 <= i < c@.len() ==> (#[trigger] c@[i]) < n,
{
    let ghost l = links@;
    let m = links.len();
    let mut cnt = initial_counts(links, n);
    let mut done: Vec<bool> = Vec::new();
    let mut v: usize = 0;
    while v < n
        invariant
            v <= n,
            done@.len() == v,
            forall|w: int| 0 <= w < v ==> !done@[w],
        decreases n - v,
    {
        done.push(false);
        v = v + 1;
    }
    proof {
        assert(done@ =~= Seq::new(n as nat, |i: int| false));
    }
    let mut layers: Vec<Vec<usize>> = Vec::new();
    let ghost mut gl: Seq<Seq<usize>> = Seq::empty();
    loop
        invariant
            m == l.len(),
            links@ == l,
            links_in_range(l, n as nat),
            done@.len() == n,
            cnt@.len() == n,
            layers@.len() == gl.len(),
            forall|j: int| 0 <= j < gl.len() ==> (#[trigger] layers@[j])@ == gl[j],
            forall|w: int| 0 <= w < n ==> #[trigger] cnt@[w] == open_in(l, done@, w as usize, m as int),
            layering_inv(l, n as nat, done@, cnt@, gl),
        decreases count_open(done@),
    {
        // the nodes ready now, in increasing number
        let mut layer: Vec<usize> = Vec::new();
        let mut w: usize = 0;
        while w < n
            invariant
                w <= n,
                done@.len() == n,
                cnt@.len() == n,
                layer@.no_duplicates(),
                forall|i: int| 0 <= i < layer@.len() ==> (#[trigger] layer@[i]) < w,
                forall|x: int| 0 <= x < w ==> (layer@.contains(x as usize) <==> (!done@[x] && cnt@[x] == 0)),
            decreases n - w,
        {
            if !done[w] && cnt[w] == 0 {
                let ghost before = layer@;
                layer.push(w);
                proof {
                    assert forall|x: int| 0 <= x <= w implies (layer@.contains(x as usize) <==> (!done@[x] && cnt@[x] == 0)) by {
                        if layer@.contains(x as usize) {
                            let i = choose|i: int| 0 <= i < layer@.len() && layer@[i] == x as usize;
                            if i < before.len() {
                                assert(before[i] == x);
                            }
                        }
                        if x < w && before.contains(x as usize) {
                            let i = choose|i: int| 0 <= i < before.len() && before[i] == x as usize;
                            assert(layer@[i] == x);
                        }
                        if x == w {
                            assert(layer@[layer@.len() - 1] == w);
                        }
                    }
                }
            }
            w = w + 1;
        }
        if layer.len() == 0 {
            match first_open(&done) {
                None => {
                    proof {
                        let ls = layers@.map_values(|v: Vec<usize>| v@);
                        assert(ls =~= gl);
                        assert forall|v: usize| v < n implies #[trigger] placed(gl, v) by {
                            assert(done@[v as int]);
                        }
                    }
                    return Ok(layers);
                },
                Some(start) => {
                    proof {
                        assert forall|v: int| 0 <= v < n && !done@[v] implies open_in(l, done@, v as usize, m as int) > 0 by {
                            assert(!layer@.contains(v as usize));
                        }
                    }
                    let c = back_cycle(links, n, &done, start);
                    return Err(c);
                },
            }
        }
        // place the layer: mark its nodes done one by one
        let ghost done_start = done@;
        let ghost cnt_start = cnt@;
        let ghost gl_old = gl;
        let ghost lay = layer@;
        let mut i: usize = 0;
        while i < layer.len()
            invariant
                m == l.len(),
                links@ == l,
                links_in_range(l, n as nat),
                lay == layer@,
                lay.no_duplicates(),
                lay.len() > 0,
                forall|t: int| 0 <= t < lay.len() ==> (#[trigger] lay[t]) < n,
                forall|x: int| 0 <= x < n ==> (lay.contains(x as usize) <==> (!done_start[x] && cnt_start[x] == 0)),
                done_start.len() == n,
                cnt_start.len() == n,
                i <= lay.len(),
                done@.len() == n,
                cnt@.len() == n,
                forall|w: int| 0 <= w < n ==> #[trigger] cnt@[w] == open_in(l, done@, w as usize, m as int),
                forall|x: usize| x < n ==> (done@[x as int] <==> (done_start[x as int] || lay.take(i as int).contains(x))),
                forall|x: int| 0 <= x < n ==> cnt@[x] <= cnt_start[x],
                forall|x: int| 0 <= x < n && #[trigger] cnt@[x] < cnt_start[x] ==> exists|y: usize| lay.contains(y) && has_link(l, y, x as usize),
                count_open(done@) + i == count_open(done_start),
            decreases lay.len() - i,
        {
            let u = layer[i];
            let ghost cnt_before = cnt@;
            proof {
                assert(!done@[u as int]) by {
                    assert(!done_start[u as int]);
                    if lay.take(i as int).contains(u) {
                        let t = choose|t: int| 0 <= t < i && #[trigger] lay.take(i as int)[t] == u;
                        assert(lay[t] == lay[i as int]);
                    }
                }
                lemma_count_open_update(done@, u as int);
            }
            let ghost done_before = done@;
            proof {
                assert forall|x: usize| x < n implies (done_before[x as int] <==> (done_start[x as int] || #[trigger] lay.take(i as int).contains(x))) by {
                    assert(done_before[x as int] == done@[x as int]);
                }
            }
            mark_done(links, n, &mut done, &mut cnt, u);
            proof {
                lemma_prefix_mark(done_start, done_before, done@, lay, i as int, n as nat);
                assert forall|x: int| 0 <= x < n && #[trigger] cnt@[x] < cnt_start[x] implies exists|y: usize| lay.contains(y) && has_link(l, y, x as usize) by {
                    if cnt@[x] < cnt_before[x] {
                        assert(lay.contains(u)) by {
                            assert(lay[i as int] == u);
                        }
                    }
                }
            }
            i = i + 1;
        }
        proof {
            assert(lay.take(i as int) =~= lay);
            lemma_extend_layering(l, n as nat, gl, lay, done_start, cnt_start, done@, cnt@);
            gl = gl.push(lay);
        }
        layers.push(layer);
        proof {
            assert forall|j: int| 0 <= j < gl.len() implies (#[trigger] layers@[j])@ == gl[j] by {}
        }
    }
}


/// A sequence of `n` distinct numbers below `n` holds every number below `n`.
pub proof fn lemma_distinct_full(s: Seq<usize>, n: nat)
    requires
        s.no_duplicates(),
        s.len() == n,
        forall|i: int| 0 <= i < s.len() ==> s[i] < n,
    ensures
        forall|v: usize| v < n ==> s.contains(v),
{
    assert forall|v: usize| v < n implies s.contains(v) by {
        if !s.contains(v) {
            let t = s.push(v);
            assert forall|i: int, j: int| 0 <= i < t.len() && 0 <= j < t.len() && i != j implies t[i] != t[j] by {
                if i == s.len() as int {
                    assert(s.contains(s[j]));
                } else if j == s.len() as int {
                    assert(s.contains(s[i]));
                } else {
                    assert(s[i] != s[j]);
                }
            }
            lemma_distinct_below(t, n);
        }
    }
}

/// Orders all nodes so that every link goes forward, or reports a cycle when there is none
/// such order. Nodes come out as Kahn's algorithm takes them.
pub fn order_or_cycle(links: &Vec<(usize, usize)>, n: usize) -> (r: Result<Vec<usize>, Vec<usize>>)
    requires
        links_in_range(links@, n as nat),
    ensures
        r matches Ok(o) ==> {
            &&& o@.len() == n
            &&& o@.no_duplicates()
            &&& forall|i: int| 0 <= i < o@.len() ==> (#[trigger] o@[i]) < n
            &&& forall|v: usize| v < n ==> o@.contains(v)
            &&& respects_links(links@, o@)
        },
        r matches Err(c) ==> is_link_cycle(links@, c@) && forall|i: int| 0 <= i < c@.len() ==> (#[trigger] c@[i]) < n,
{
    let run = kahn(links, n);
    if run.order.len() == n {
        proof {
            lemma_distinct_full(run.order@, n as nat);
        }
        Ok(run.order)
    } else {
        proof {
            lemma_distinct_below(run.order@, n as nat);
        }
        match first_open(&run.done) {
            Some(start) => {
                proof {
                    assert forall|v: int| 0 <= v < n && !run.done@[v] implies open_in(links@, run.done@, v as usize, links@.len() as int) > 0 by {
                        assert(run.cnt@[v] > 0);
                    }
                }
                let c = back_cycle(links, n, &run.done, start);
                Err(c)
            },
            None => {
                proof {
                    // every node is done, so every node was taken: the order is full
                    assert forall|v: usize| v < n implies run.order@.contains(v) by {
                        assert(run.done@[v as int]);
                    }
                    lemma_covers_len(run.order@, n as nat);
                }
                Ok(run.order)
            },
        }
    }
}

/// A sequence that holds every number below `n` has at least `n` entries.
proof fn lemma_covers_len(s: Seq<usize>, n: nat)
    requires
        n <= usize::MAX,
        forall|v: usize| v < n ==> s.contains(v),
    ensures
        s.len() >= n,
{
    let t = s.map_values(|x: usize| x as int);
    assert(set_int_range(0, n as int).subset_of(t.to_set())) by {
        assert forall|x: int| set_int_range(0, n as int).contains(x) implies t.to_set().contains(x) by {
            assert(s.contains(x as usize));
            let i = choose|i: int| 0 <= i < s.len() && s[i] == x as usize;
            assert(t[i] == x);
        }
    }
    lemma_int_range(0, n as int);
    vstd::seq_lib::seq_to_set_is_finite(t);
    lemma_len_subset(set_int_range(0, n as int), t.to_set());
    t.lemma_cardinality_of_set();
}


/// The layer `x` is placed in (meaningful when `placed(ls, x)`).
pub open spec fn layer_of(ls: Seq<Seq<usize>>, x: usize) -> int {
    choose|j: int| #[trigger] in_layer(ls, x, j)
}

/// In a layering, a link leads from an earlier layer to a later one.
proof fn lemma_link_layers(l: Seq<(usize, usize)>, n: nat, ls: Seq<Seq<usize>>, a: usize, b: usize)
    requires
        links_in_range(l, n),
        is_layering(l, n, ls),
        has_link(l, a, b),
    ensures
        layer_of(ls, a) < layer_of(ls, b),
{
    let k = choose|k: int| 0 <= k < l.len() && #[trigger] l[k] == (a, b);
    assert(l[k].0 < n && l[k].1 < n);
    assert(placed(ls, a));
    assert(placed(ls, b));
    let ja = layer_of(ls, a);
    let jb = layer_of(ls, b);
    assert(in_layer(ls, l[k].0, ja));
    assert(in_layer(ls, l[k].1, jb));
}

proof fn lemma_layer_rising(l: Seq<(usize, usize)>, n: nat, ls: Seq<Seq<usize>>, c: Seq<usize>, i: int)
    requires
        links_in_range(l, n),
        is_layering(l, n, ls),
        is_link_cycle(l, c),
        1 <= i < c.len(),
    ensures
        layer_of(ls, c[0]) < layer_of(ls, c[i]),
    decreases i,
{
    assert(has_link(l, c[i - 1], c[i]));
    lemma_link_layers(l, n, ls, c[i - 1], c[i]);
    if i > 1 {
        lemma_layer_rising(l, n, ls, c, i - 1);
    }
}

/// A graph that can be split into layers has no cycle.
pub proof fn lemma_layering_acyclic(l: Seq<(usize, usize)>, n: nat, ls: Seq<Seq<usize>>, c: Seq<usize>)
    requires
        links_in_range(l, n),
        is_layering(l, n, ls),
    ensures
        !is_link_cycle(l, c),
{
    if is_link_cycle(l, c) {
        lemma_layer_rising(l, n, ls, c, c.len() - 1);
    }
}

} // verus!
