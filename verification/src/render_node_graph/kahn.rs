//! Kahn's algorithm over usage indices: dependency levels, or the set of nodes
//! that can never become ready.
use vstd::prelude::*;

verus! {

/// Number of edges of `s` satisfying `p`.
pub open spec fn cnt(s: Seq<(usize, usize)>, p: spec_fn((usize, usize)) -> bool) -> nat
    decreases s.len(),
{
    if s.len() == 0 {
        0
    } else {
        cnt(s.drop_last(), p) + if p(s.last()) { 1nat } else { 0nat }
    }
}

/// Edges into `c` whose parent is not in `popped`.
pub open spec fn into_unpopped(c: usize, popped: Seq<usize>) -> spec_fn((usize, usize)) -> bool {
    |e: (usize, usize)| e.1 == c && !popped.contains(e.0)
}

/// Edges from `p` to `c`.
pub open spec fn from_to(p: usize, c: usize) -> spec_fn((usize, usize)) -> bool {
    |e: (usize, usize)| e.0 == p && e.1 == c
}

pub proof fn lemma_cnt_append(a: Seq<(usize, usize)>, b: Seq<(usize, usize)>, p: spec_fn((usize, usize)) -> bool)
    ensures
        cnt(a + b, p) == cnt(a, p) + cnt(b, p),
    decreases b.len(),
{
    if b.len() == 0 {
        assert(a + b =~= a);
    } else {
        lemma_cnt_append(a, b.drop_last(), p);
        assert((a + b).drop_last() =~= a + b.drop_last());
    }
}

pub proof fn lemma_cnt_mono(s: Seq<(usize, usize)>, p: spec_fn((usize, usize)) -> bool, q: spec_fn((usize, usize)) -> bool)
    requires
        forall|e: (usize, usize)| #[trigger] p(e) ==> q(e),
    ensures
        cnt(s, p) <= cnt(s, q),
    decreases s.len(),
{
    if s.len() > 0 {
        lemma_cnt_mono(s.drop_last(), p, q);
    }
}

pub proof fn lemma_cnt_split(s: Seq<(usize, usize)>, p: spec_fn((usize, usize)) -> bool, q: spec_fn((usize, usize)) -> bool, r: spec_fn((usize, usize)) -> bool)
    requires
        forall|e: (usize, usize)| #[trigger] p(e) == (q(e) || r(e)),
        forall|e: (usize, usize)| !(#[trigger] q(e) && r(e)),
    ensures
        cnt(s, p) == cnt(s, q) + cnt(s, r),
    decreases s.len(),
{
    if s.len() > 0 {
        lemma_cnt_split(s.drop_last(), p, q, r);
        assert(p(s.last()) == (q(s.last()) || r(s.last())));
    }
}

pub proof fn lemma_cnt_ext(s: Seq<(usize, usize)>, p: spec_fn((usize, usize)) -> bool, q: spec_fn((usize, usize)) -> bool)
    requires
        forall|e: (usize, usize)| #[trigger] p(e) == q(e),
    ensures
        cnt(s, p) == cnt(s, q),
    decreases s.len(),
{
    if s.len() > 0 {
        lemma_cnt_ext(s.drop_last(), p, q);
        assert(p(s.last()) == q(s.last()));
    }
}

pub proof fn lemma_cnt_positive(s: Seq<(usize, usize)>, p: spec_fn((usize, usize)) -> bool)
    requires
        cnt(s, p) > 0,
    ensures
        exists|i: int| 0 <= i < s.len() && #[trigger] p(s[i]),
    decreases s.len(),
{
    if p(s.last()) {
        assert(p(s[s.len() - 1]));
    } else {
        lemma_cnt_positive(s.drop_last(), p);
        let i = choose|i: int| 0 <= i < s.drop_last().len() && #[trigger] p(s.drop_last()[i]);
        assert(p(s[i]));
    }
}

pub proof fn lemma_cnt_at_least_one(s: Seq<(usize, usize)>, p: spec_fn((usize, usize)) -> bool, i: int)
    requires
        0 <= i < s.len(),
        p(s[i]),
    ensures
        cnt(s, p) >= 1,
    decreases s.len(),
{
    if i < s.len() - 1 {
        lemma_cnt_at_least_one(s.drop_last(), p, i);
    }
}

/// A sequence of distinct indices below `n` that holds every index below `n`
/// has exactly `n` elements, and one that misses an index has fewer.
pub proof fn lemma_distinct_cover(s: Seq<usize>, n: int)
    requires
        0 <= n <= usize::MAX,
        s.no_duplicates(),
        forall|i: int| 0 <= i < s.len() ==> (#[trigger] s[i] as int) < n,
    ensures
        s.len() <= n,
        (forall|u: usize| (u as int) < n ==> #[trigger] s.contains(u)) ==> s.len() == n,
        s.len() < n ==> exists|u: usize| (u as int) < n && !#[trigger] s.contains(u),
        s.len() == n ==> forall|u: usize| (u as int) < n ==> #[trigger] s.contains(u),
{
    let si = s.map_values(|x: usize| x as int);
    assert forall|i: int, j: int| 0 <= i < si.len() && 0 <= j < si.len() && i != j implies si[i] != si[j] by {
        assert(s[i] != s[j]);
    }
    assert(si.no_duplicates());
    si.unique_seq_to_set();
    let range = vstd::set_lib::set_int_range(0, n);
    assert forall|x: int| si.to_set().contains(x) implies range.contains(x) by {
        assert(si.contains(x));
        let i = choose|i: int| 0 <= i < si.len() && si[i] == x;
        assert(s[i] as int == x);
    }
    vstd::set_lib::lemma_int_range(0, n);
    vstd::set_lib::lemma_len_subset(si.to_set(), range);
    if forall|u: usize| (u as int) < n ==> #[trigger] s.contains(u) {
        assert forall|x: int| range.contains(x) implies si.to_set().contains(x) by {
            let u = x as usize;
            assert(u as int == x);
            assert(s.contains(u));
            let i = choose|i: int| 0 <= i < s.len() && s[i] == u;
            assert(si[i] == x);
        }
        assert(si.to_set() =~= range);
    }
    if s.len() == n {
        assert forall|u: usize| (u as int) < n implies #[trigger] s.contains(u) by {
            if !s.contains(u) {
                let smaller = range.remove(u as int);
                assert forall|x: int| si.to_set().contains(x) implies smaller.contains(x) by {
                    assert(si.contains(x));
                    let i = choose|i: int| 0 <= i < si.len() && si[i] == x;
                    assert(s[i] as int == x);
                    if x == u as int {
                        assert(s[i] == u);
                    }
                }
                assert(range.contains(u as int));
                vstd::set_lib::lemma_len_subset(si.to_set(), smaller);
            }
        }
    }
    if s.len() < n {
        if forall|u: usize| (u as int) < n ==> #[trigger] s.contains(u) {
            assert forall|x: int| range.contains(x) implies si.to_set().contains(x) by {
                let u = x as usize;
                assert(s.contains(u));
                let i = choose|i: int| 0 <= i < s.len() && s[i] == u;
                assert(si[i] == x);
            }
            assert(si.to_set() =~= range);
        }
    }
}


/// Edges into `c`.
pub open spec fn into(c: usize) -> spec_fn((usize, usize)) -> bool {
    |e: (usize, usize)| e.1 == c
}

/// Runs Kahn's algorithm over `n` nodes and `edges` (parent, child), returning
/// the order in which nodes became ready and each node's level: the longest
/// chain of edges above it among processed nodes.
///
/// Nodes that never become ready each have an edge from another such node.
pub fn kahn_levels(n: usize, edges: &Vec<(usize, usize)>) -> (r: (Vec<usize>, Vec<usize>))
    requires
        forall|j: int|
            0 <= j < edges@.len() ==> (#[trigger] edges@[j]).0 < n && edges@[j].1 < n && edges@[j].0 != edges@[j].1,
    ensures
        r.0@.no_duplicates(),
        forall|i: int| 0 <= i < r.0@.len() ==> (#[trigger] r.0@[i]) < n,
        r.0@.len() <= n,
        r.1@.len() == n,
        forall|u: usize| u < n ==> (#[trigger] r.1@[u as int]) <= r.0@.len(),
        forall|u: usize|
            u < n && !(#[trigger] r.0@.contains(u)) ==> exists|j: int|
                0 <= j < edges@.len() && (#[trigger] edges@[j]).1 == u && !r.0@.contains(edges@[j].0),
        forall|j: int|
            0 <= j < edges@.len() && r.0@.contains((#[trigger] edges@[j]).0) ==> r.1@[edges@[j].1 as int] > r.1@[edges@[j].0 as int],
        forall|c: int|
            0 <= c < n && #[trigger] r.1@[c] > 0 ==> exists|j: int|
                0 <= j < edges@.len() && (#[trigger] edges@[j]).1 == c && r.0@.contains(edges@[j].0) && r.1@[c]
                    == r.1@[edges@[j].0 as int] + 1,
{
    let mut incoming_counts: Vec<usize> = Vec::new();
    let mut levels: Vec<usize> = Vec::new();
    let mut u: usize = 0;
    while u < n
        invariant
            incoming_counts@.len() == u,
            levels@.len() == u,
            u <= n,
            forall|j: int| 0 <= j < u ==> #[trigger] incoming_counts@[j] == 0,
            forall|j: int| 0 <= j < u ==> #[trigger] levels@[j] == 0,
        decreases n - u,
    {
        incoming_counts.push(0);
        levels.push(0);
        u = u + 1;
    }
    let mut e: usize = 0;
    while e < edges.len()
        invariant
            forall|j: int|
                0 <= j < edges@.len() ==> (#[trigger] edges@[j]).0 < n && edges@[j].1 < n && edges@[j].0 != edges@[j].1,
            incoming_counts@.len() == n,
            e <= edges@.len(),
            forall|c: int| 0 <= c < n ==> #[trigger] incoming_counts@[c] == cnt(edges@.subrange(0, e as int), into(c as usize)),
            forall|c: int| 0 <= c < n ==> #[trigger] incoming_counts@[c] <= e,
        decreases edges@.len() - e,
    {
        let child = edges[e].1;
        proof {
            assert(edges@.subrange(0, e as int + 1).drop_last() =~= edges@.subrange(0, e as int));
        }
        let count = incoming_counts[child];
        incoming_counts.set(child, count + 1);
        e = e + 1;
    }
    proof {
        assert(edges@.subrange(0, e as int) =~= edges@);
        assert forall|c: int| 0 <= c < n implies #[trigger] incoming_counts@[c] == cnt(edges@, into_unpopped(c as usize, Seq::<usize>::empty())) by {
            assert forall|e: (usize, usize)| #[trigger] into(c as usize)(e) == into_unpopped(c as usize, Seq::<usize>::empty())(e) by {
                assert(!Seq::<usize>::empty().contains(e.0));
            }
            lemma_cnt_ext(edges@, into(c as usize), into_unpopped(c as usize, Seq::<usize>::empty()));
        }
    }
    let mut ready: Vec<usize> = Vec::new();
    let mut index: usize = 0;
    while index < n
        invariant
            incoming_counts@.len() == n,
            index <= n,
            ready@.no_duplicates(),
            forall|i: int| 0 <= i < ready@.len() ==> (#[trigger] ready@[i]) < index,
            forall|c: usize| c < index ==> (incoming_counts@[c as int] == 0) == #[trigger] ready@.contains(c),
        decreases n - index,
    {
        let ghost before = ready@;
        proof {
            assert(!before.contains(index)) by {
                if before.contains(index) {
                    let i = choose|i: int| 0 <= i < before.len() && before[i] == index;
                }
            }
        }
        if incoming_counts[index] == 0 {
            ready.push(index);
        }
        proof {
            assert forall|x: usize| #[trigger] ready@.contains(x) == (before.contains(x) || (x == index
                && incoming_counts@[index as int] == 0)) by {
                if ready@.contains(x) {
                    let i = choose|i: int| 0 <= i < ready@.len() && ready@[i] == x;
                    if i < before.len() {
                        assert(before[i] == x);
                    }
                }
                if before.contains(x) {
                    let i = choose|i: int| 0 <= i < before.len() && before[i] == x;
                    assert(ready@[i] == x);
                }
                if x == index && incoming_counts@[index as int] == 0 {
                    assert(ready@[ready@.len() - 1] == x);
                }
            }
        }
        index = index + 1;
    }
    let mut head: usize = 0;
    proof {
        lemma_distinct_cover(ready@, n as int);
        assert(ready@.subrange(0, 0) =~= Seq::<usize>::empty());
    }
    while head < ready.len()
        invariant
            forall|j: int|
                0 <= j < edges@.len() ==> (#[trigger] edges@[j]).0 < n && edges@[j].1 < n && edges@[j].0 != edges@[j].1,
            incoming_counts@.len() == n,
            levels@.len() == n,
            ready@.no_duplicates(),
            forall|i: int| 0 <= i < ready@.len() ==> (#[trigger] ready@[i]) < n,
            ready@.len() <= n,
            head <= ready@.len(),
            forall|c: int|
                0 <= c < n ==> #[trigger] incoming_counts@[c] == cnt(edges@, into_unpopped(c as usize, ready@.subrange(0, head as int))),
            forall|c: usize| c < n ==> (incoming_counts@[c as int] == 0) == #[trigger] ready@.contains(c),
            forall|c: int| 0 <= c < n ==> #[trigger] levels@[c] <= head,
            forall|j: int|
                0 <= j < edges@.len() && ready@.subrange(0, head as int).contains((#[trigger] edges@[j]).0) ==> levels@[edges@[j].1 as int]
                    > levels@[edges@[j].0 as int],
            forall|c: int|
                0 <= c < n && #[trigger] levels@[c] > 0 ==> exists|j: int|
                    0 <= j < edges@.len() && (#[trigger] edges@[j]).1 == c && ready@.subrange(0, head as int).contains(
                        edges@[j].0,
                    ) && levels@[c] == levels@[edges@[j].0 as int] + 1,
        decreases n - head,
    {
        let parent_index = ready[head];
        let ghost popped_old = ready@.subrange(0, head as int);
        let ghost start_levels = levels@;
        let ghost start_counts = incoming_counts@;
        let ghost start_ready = ready@;
        proof {
            assert(!popped_old.contains(parent_index)) by {
                if popped_old.contains(parent_index) {
                    let i = choose|i: int| 0 <= i < popped_old.len() && popped_old[i] == parent_index;
                    assert(ready@[i] == ready@[head as int]);
                }
            }
        }
        head = head + 1;
        let ghost popped_new = ready@.subrange(0, head as int);
        proof {
            assert(popped_new =~= popped_old.push(parent_index));
        }
        let child_level = levels[parent_index] + 1;
        proof {
            assert forall|c: int| 0 <= c < n && #[trigger] levels@[c] > 0 implies exists|j: int|
                0 <= j < edges@.len() && (#[trigger] edges@[j]).1 == c && popped_new.contains(edges@[j].0)
                    && levels@[c] == levels@[edges@[j].0 as int] + 1 by {
                let j = choose|j: int|
                    0 <= j < edges@.len() && (#[trigger] edges@[j]).1 == c && popped_old.contains(edges@[j].0)
                        && levels@[c] == levels@[edges@[j].0 as int] + 1;
                let i = choose|i: int| 0 <= i < popped_old.len() && popped_old[i] == edges@[j].0;
                assert(popped_new[i] == edges@[j].0);
            }
        }
        let mut k: usize = 0;
        while k < edges.len()
            invariant
                forall|j: int|
                    0 <= j < edges@.len() ==> (#[trigger] edges@[j]).0 < n && edges@[j].1 < n && edges@[j].0 != edges@[j].1,
                incoming_counts@.len() == n,
                levels@.len() == n,
                start_levels.len() == n,
                ready@.no_duplicates(),
                forall|i: int| 0 <= i < ready@.len() ==> (#[trigger] ready@[i]) < n,
                ready@.len() <= n,
                head <= ready@.len(),
                ready@.subrange(0, head as int) == popped_new,
                popped_new == popped_old.push(parent_index),
                !popped_old.contains(parent_index),
                parent_index < n,
                child_level == start_levels[parent_index as int] + 1,
                child_level <= head,
                k <= edges@.len(),
                forall|c: int|
                    0 <= c < n ==> #[trigger] incoming_counts@[c] + cnt(edges@.subrange(0, k as int), from_to(parent_index, c as usize))
                        == cnt(edges@, into_unpopped(c as usize, popped_old)),
                forall|c: usize| c < n ==> (incoming_counts@[c as int] == 0) == #[trigger] ready@.contains(c),
                forall|c: int| 0 <= c < n ==> #[trigger] levels@[c] <= head,
                forall|c: int| 0 <= c < n ==> #[trigger] levels@[c] >= start_levels[c],
                forall|x: usize| #[trigger] popped_new.contains(x) ==> levels@[x as int] == start_levels[x as int],
                forall|j: int|
                    0 <= j < edges@.len() && popped_old.contains((#[trigger] edges@[j]).0) ==> start_levels[edges@[j].1 as int]
                        > start_levels[edges@[j].0 as int],
                forall|j: int|
                    0 <= j < k && (#[trigger] edges@[j]).0 == parent_index ==> levels@[edges@[j].1 as int] >= child_level,
                forall|c: int|
                    0 <= c < n && #[trigger] levels@[c] > 0 ==> exists|j: int|
                        0 <= j < edges@.len() && (#[trigger] edges@[j]).1 == c && popped_new.contains(edges@[j].0)
                            && levels@[c] == levels@[edges@[j].0 as int] + 1,
            decreases edges@.len() - k,
        {
            let edge = edges[k];
            let ghost step_ready = ready@;
            let ghost step_counts = incoming_counts@;
            let ghost step_levels = levels@;
            proof {
                assert(edges@.subrange(0, k as int + 1).drop_last() =~= edges@.subrange(0, k as int));
            }
            if edge.0 == parent_index {
                let child_index = edge.1;
                proof {
                    assert(!popped_old.contains(child_index)) by {
                        if popped_old.contains(child_index) {
                            let i = choose|i: int| 0 <= i < popped_old.len() && popped_old[i] == child_index;
                            assert(popped_new[i] == child_index);
                            assert(popped_new.len() == popped_old.len() + 1);
                            assert(ready@.subrange(0, head as int).len() == popped_new.len());
                            assert(0 <= i < head);
                            assert(ready@.subrange(0, head as int)[i] == child_index);
                            assert(ready@[i] == child_index);
                            assert(ready@.contains(child_index));
                            assert(incoming_counts@[child_index as int] == 0);
                            lemma_cnt_at_least_one(edges@.subrange(k as int, edges@.len() as int), from_to(parent_index, child_index), 0);
                            assert(edges@ =~= edges@.subrange(0, k as int) + edges@.subrange(k as int, edges@.len() as int));
                            lemma_cnt_append(edges@.subrange(0, k as int), edges@.subrange(k as int, edges@.len() as int), from_to(parent_index, child_index));
                            lemma_cnt_mono(edges@, from_to(parent_index, child_index), into_unpopped(child_index, popped_old));
                            let j = choose|j: int| 0 <= j < popped_old.len() && popped_old[j] == child_index;
                        }
                    }
                    assert(child_index != parent_index);
                    assert(!popped_new.contains(child_index));
                }
                if levels[child_index] < child_level {
                    levels.set(child_index, child_level);
                }
                let count = incoming_counts[child_index];
                proof {
                    lemma_cnt_at_least_one(edges@.subrange(k as int, edges@.len() as int), from_to(parent_index, child_index), 0);
                    assert(edges@ =~= edges@.subrange(0, k as int) + edges@.subrange(k as int, edges@.len() as int));
                    lemma_cnt_append(edges@.subrange(0, k as int), edges@.subrange(k as int, edges@.len() as int), from_to(parent_index, child_index));
                    lemma_cnt_mono(edges@, from_to(parent_index, child_index), into_unpopped(child_index, popped_old));
                    assert(count > 0);
                }
                if count > 0 {
                    incoming_counts.set(child_index, count - 1);
                    if count == 1 {
                        proof {
                            assert(!ready@.contains(child_index));
                        }
                        ready.push(child_index);
                        proof {
                            assert(ready@.subrange(0, head as int) =~= popped_new);
                        }
                    }
                }
            }
            proof {
                assert forall|c: int| 0 <= c < n && #[trigger] levels@[c] > 0 implies exists|j: int|
                    0 <= j < edges@.len() && (#[trigger] edges@[j]).1 == c && popped_new.contains(edges@[j].0)
                        && levels@[c] == levels@[edges@[j].0 as int] + 1 by {
                    if levels@[c] != step_levels[c] {
                        assert(edge.0 == parent_index && c == edge.1 as int);
                        assert(popped_new[popped_new.len() - 1] == parent_index);
                        assert(edges@[k as int] == edge);
                        assert(levels@[parent_index as int] == start_levels[parent_index as int]);
                    } else {
                        let j = choose|j: int|
                            0 <= j < edges@.len() && (#[trigger] edges@[j]).1 == c && popped_new.contains(edges@[j].0)
                                && step_levels[c] == step_levels[edges@[j].0 as int] + 1;
                        assert(levels@[edges@[j].0 as int] == start_levels[edges@[j].0 as int]);
                        assert(step_levels[edges@[j].0 as int] == start_levels[edges@[j].0 as int]);
                    }
                }
                assert forall|x: usize| #[trigger] ready@.contains(x) ==> step_ready.contains(x) || (x == edge.1
                    && edge.0 == parent_index && incoming_counts@[x as int] == 0) by {
                    if ready@.contains(x) {
                        let i = choose|i: int| 0 <= i < ready@.len() && ready@[i] == x;
                        if i < step_ready.len() {
                            assert(step_ready[i] == x);
                        }
                    }
                }
                assert forall|x: usize| #[trigger] step_ready.contains(x) ==> ready@.contains(x) by {
                    if step_ready.contains(x) {
                        let i = choose|i: int| 0 <= i < step_ready.len() && step_ready[i] == x;
                        assert(ready@[i] == x);
                    }
                }
                lemma_distinct_cover(ready@, n as int);
                assert forall|c: usize| c < n implies (incoming_counts@[c as int] == 0) == #[trigger] ready@.contains(c) by {
                    assert((step_counts[c as int] == 0) == step_ready.contains(c));
                    if edge.0 == parent_index && c == edge.1 {
                        if incoming_counts@[c as int] == 0 {
                            assert(ready@[ready@.len() - 1] == c);
                        }
                    } else {
                        assert(incoming_counts@[c as int] == step_counts[c as int]);
                    }
                }
            }
            k = k + 1;
        }
        proof {
            assert(edges@.subrange(0, k as int) =~= edges@);
            assert(popped_new[popped_new.len() - 1] == parent_index);
            assert forall|x: usize| #[trigger] popped_new.contains(x) == (popped_old.contains(x) || x == parent_index) by {
                if popped_new.contains(x) {
                    let i = choose|i: int| 0 <= i < popped_new.len() && popped_new[i] == x;
                    if i < popped_old.len() {
                        assert(popped_old[i] == x);
                    }
                }
                if popped_old.contains(x) {
                    let i = choose|i: int| 0 <= i < popped_old.len() && popped_old[i] == x;
                    assert(popped_new[i] == x);
                }
            }
            assert forall|c: int|
                0 <= c < n implies #[trigger] incoming_counts@[c] == cnt(edges@, into_unpopped(c as usize, popped_new)) by {
                lemma_cnt_split(
                    edges@,
                    into_unpopped(c as usize, popped_old),
                    into_unpopped(c as usize, popped_new),
                    from_to(parent_index, c as usize),
                );
            }
            assert forall|j: int|
                0 <= j < edges@.len() && popped_new.contains((#[trigger] edges@[j]).0) implies levels@[edges@[j].1 as int]
                    > levels@[edges@[j].0 as int] by {
                if edges@[j].0 == parent_index {
                } else {
                    assert(popped_old.contains(edges@[j].0));
                }
            }
            lemma_distinct_cover(ready@, n as int);
        }
    }
    proof {
        assert(ready@.subrange(0, head as int) =~= ready@);
        assert forall|u: usize| u < n && !(#[trigger] ready@.contains(u)) implies exists|j: int|
            0 <= j < edges@.len() && (#[trigger] edges@[j]).1 == u && !ready@.contains(edges@[j].0) by {
            assert(incoming_counts@[u as int] != 0);
            lemma_cnt_positive(edges@, into_unpopped(u, ready@));
        }
    }
    (ready, levels)
}


/// Whether `r` lists indices by increasing level, ties by increasing index.
pub open spec fn sorted_by_level(r: Seq<usize>, levels: Seq<usize>) -> bool {
    forall|i: int, j: int|
        0 <= i < j < r.len() ==> levels[#[trigger] r[i] as int] < levels[#[trigger] r[j] as int] || (levels[r[i] as int]
            == levels[r[j] as int] && r[i] < r[j])
}

/// Lists the indices `0..levels.len()` by increasing level, ties broken by index.
pub fn order_by_level(levels: &Vec<usize>) -> (r: Vec<usize>)
    ensures
        r@.len() == levels@.len(),
        r@.no_duplicates(),
        forall|i: int| 0 <= i < r@.len() ==> (#[trigger] r@[i]) < levels@.len(),
        forall|u: usize| u < levels@.len() ==> #[trigger] r@.contains(u),
        sorted_by_level(r@, levels@),
{
    let n = levels.len();
    let mut max_level: usize = 0;
    let mut w: usize = 0;
    while w < n
        invariant
            n == levels@.len(),
            w <= n,
            forall|u: int| 0 <= u < w ==> #[trigger] levels@[u] <= max_level,
        decreases n - w,
    {
        if levels[w] > max_level {
            max_level = levels[w];
        }
        w = w + 1;
    }
    let mut out: Vec<usize> = Vec::new();
    let mut level: usize = 0;
    loop
        invariant_except_break
            forall|i: int| 0 <= i < out@.len() ==> levels@[(#[trigger] out@[i]) as int] < level,
            forall|u: usize| u < n ==> (#[trigger] out@.contains(u) <==> levels@[u as int] < level),
        invariant
            n == levels@.len(),
            forall|u: int| 0 <= u < n ==> #[trigger] levels@[u] <= max_level,
            level <= max_level,
            sorted_by_level(out@, levels@),
            forall|i: int| 0 <= i < out@.len() ==> (#[trigger] out@[i]) < n,
        ensures
            sorted_by_level(out@, levels@),
            forall|i: int| 0 <= i < out@.len() ==> (#[trigger] out@[i]) < n,
            forall|u: usize| u < n ==> #[trigger] out@.contains(u),
        decreases max_level - level,
    {
        let mut v: usize = 0;
        while v < n
            invariant
                n == levels@.len(),
                forall|u: int| 0 <= u < n ==> #[trigger] levels@[u] <= max_level,
                level <= max_level,
                v <= n,
                sorted_by_level(out@, levels@),
                forall|i: int| 0 <= i < out@.len() ==> (#[trigger] out@[i]) < n && levels@[out@[i] as int] <= level,
                forall|i: int| 0 <= i < out@.len() && levels@[(#[trigger] out@[i]) as int] == level ==> out@[i] < v,
                forall|u: usize|
                    u < n ==> (#[trigger] out@.contains(u) <==> (levels@[u as int] < level || (levels@[u as int] == level
                        && u < v))),
            decreases n - v,
        {
            if levels[v] == level {
                let ghost before = out@;
                out.push(v);
                proof {
                    assert forall|i: int, j: int|
                        0 <= i < j < out@.len() implies levels@[#[trigger] out@[i] as int] < levels@[#[trigger] out@[j] as int]
                            || (levels@[out@[i] as int] == levels@[out@[j] as int] && out@[i] < out@[j]) by {
                        if j == out@.len() - 1 {
                            assert(before[i] == out@[i]);
                        } else {
                            assert(before[i] == out@[i]);
                            assert(before[j] == out@[j]);
                        }
                    }
                    assert forall|u: usize|
                        u < n implies (#[trigger] out@.contains(u) <==> (levels@[u as int] < level || (levels@[u as int]
                            == level && u < v + 1))) by {
                        if out@.contains(u) {
                            let i = choose|i: int| 0 <= i < out@.len() && out@[i] == u;
                            if i < before.len() {
                                assert(before[i] == u);
                            }
                        }
                        if before.contains(u) {
                            let i = choose|i: int| 0 <= i < before.len() && before[i] == u;
                            assert(out@[i] == u);
                        }
                        if u == v {
                            assert(out@[out@.len() - 1] == u);
                        }
                    }
                }
            }
            v = v + 1;
        }
        if level == max_level {
            break;
        }
        level = level + 1;
    }
    proof {
        assert forall|i: int, j: int| 0 <= i < out@.len() && 0 <= j < out@.len() && i != j implies out@[i] != out@[j] by {
            if i < j {
                assert(levels@[out@[i] as int] < levels@[out@[j] as int] || out@[i] < out@[j]);
            } else {
                assert(levels@[out@[j] as int] < levels@[out@[i] as int] || out@[j] < out@[i]);
            }
        }
        assert(out@.no_duplicates());
        lemma_distinct_cover(out@, n as int);
    }
    out
}

} // verus!
