//! The process list: which processes the process view keeps, in which
//! order, and which one tops a resource.
//!
//! Each process is given by three order keys that rank it like its CPU
//! usage, its memory share, and the larger of the two (the caller maps each
//! floating-point value to a `u64` that orders as `f64::total_cmp` does).
//! Sorting is stable and descending, as `sort_by` with a reversed comparison.

use vstd::prelude::*;

verus! {

/// How many processes to keep by each resource for the process view.
pub const PROC_LIMIT: usize = 15;

/// All positions of `s` name entries of `key`.
pub open spec fn in_range(s: Seq<usize>, n: int) -> bool {
    forall|i: int| 0 <= i < s.len() ==> #[trigger] s[i] < n
}

/// `l` is sorted by `key`, largest first.
pub open spec fn sorted_desc(l: Seq<usize>, key: Seq<u64>) -> bool {
    forall|i: int, j: int| 0 <= i < j < l.len() ==> key[#[trigger] l[i] as int] >= key[#[trigger] l[j] as int]
}

/// `l` with `x` inserted after every entry whose key is at least `x`'s (one
/// step of a stable insertion sort, largest first).
pub open spec fn insert_desc(l: Seq<usize>, x: usize, key: Seq<u64>) -> Seq<usize>
    decreases l.len(),
{
    if l.len() == 0 {
        seq![x]
    } else if key[l.last() as int] >= key[x as int] {
        l.push(x)
    } else {
        insert_desc(l.drop_last(), x, key).push(l.last())
    }
}

/// `s` sorted by `key`, largest first; entries with equal keys keep their order.
pub open spec fn sort_desc(s: Seq<usize>, key: Seq<u64>) -> Seq<usize>
    decreases s.len(),
{
    if s.len() == 0 {
        s
    } else {
        insert_desc(sort_desc(s.drop_last(), key), s.last(), key)
    }
}

/// Every entry of `r` is `x` or an entry of `l`.
pub open spec fn from_or(r: Seq<usize>, l: Seq<usize>, x: usize) -> bool {
    forall|i: int| 0 <= i < r.len() ==> #[trigger] r[i] == x || l.contains(r[i])
}

proof fn lemma_insert_facts(l: Seq<usize>, x: usize, key: Seq<u64>)
    ensures
        insert_desc(l, x, key).len() == l.len() + 1,
        from_or(insert_desc(l, x, key), l, x),
        insert_desc(l, x, key).contains(x),
        forall|k: int| 0 <= k < l.len() ==> insert_desc(l, x, key).contains(#[trigger] l[k]),
        sorted_desc(l, key) ==> sorted_desc(insert_desc(l, x, key), key),
    decreases l.len(),
{
    let r = insert_desc(l, x, key);
    if l.len() == 0 {
        assert(r[0] == x);
    } else if key[l.last() as int] >= key[x as int] {
        assert(r[r.len() - 1] == x);
        assert forall|k: int| 0 <= k < l.len() implies r.contains(#[trigger] l[k]) by {
            assert(r[k] == l[k]);
        }
        assert forall|i: int| 0 <= i < r.len() implies #[trigger] r[i] == x || l.contains(r[i]) by {
            if i < l.len() {
                assert(r[i] == l[i]);
            }
        }
    } else {
        let lp = l.drop_last();
        let rp = insert_desc(lp, x, key);
        lemma_insert_facts(lp, x, key);
        assert(r == rp.push(l.last()));
        let wx = choose|i: int| 0 <= i < rp.len() && rp[i] == x;
        assert(r[wx] == x);
        assert forall|k: int| 0 <= k < l.len() implies r.contains(#[trigger] l[k]) by {
            if k == l.len() - 1 {
                assert(r[r.len() - 1] == l[k]);
            } else {
                assert(lp[k] == l[k]);
                assert(rp.contains(lp[k]));
                let w = choose|i: int| 0 <= i < rp.len() && rp[i] == lp[k];
                assert(r[w] == l[k]);
            }
        }
        assert forall|i: int| 0 <= i < r.len() implies #[trigger] r[i] == x || l.contains(r[i]) by {
            if i == r.len() - 1 {
                assert(l[l.len() - 1] == r[i]);
            } else {
                assert(r[i] == rp[i]);
                if rp[i] != x {
                    assert(lp.contains(rp[i]));
                    let w = choose|j: int| 0 <= j < lp.len() && lp[j] == rp[i];
                    assert(l[w] == r[i]);
                }
            }
        }
        if sorted_desc(l, key) {
            assert(sorted_desc(lp, key));
            assert forall|i: int, j: int| 0 <= i < j < r.len() implies key[#[trigger] r[i] as int]
                >= key[#[trigger] r[j] as int] by {
                if j == r.len() - 1 {
                    assert(r[j] == l.last());
                    assert(r[i] == rp[i]);
                    if rp[i] == x {
                    } else {
                        assert(lp.contains(rp[i]));
                        let w = choose|m: int| 0 <= m < lp.len() && lp[m] == rp[i];
                        assert(l[w] == rp[i]);
                        assert(key[l[w] as int] >= key[l[l.len() - 1] as int]);
                    }
                } else {
                    assert(r[i] == rp[i] && r[j] == rp[j]);
                }
            }
        }
    }
}

/// What a stable sort keeps: the same entries, in order of their keys.
pub proof fn lemma_sort_facts(s: Seq<usize>, key: Seq<u64>)
    ensures
        sort_desc(s, key).len() == s.len(),
        from_or(sort_desc(s, key), s, 0) && forall|i: int|
            0 <= i < sort_desc(s, key).len() ==> s.contains(#[trigger] sort_desc(s, key)[i]),
        forall|k: int| 0 <= k < s.len() ==> sort_desc(s, key).contains(#[trigger] s[k]),
        sorted_desc(sort_desc(s, key), key),
    decreases s.len(),
{
    let r = sort_desc(s, key);
    if s.len() > 0 {
        let sp = s.drop_last();
        let rp = sort_desc(sp, key);
        lemma_sort_facts(sp, key);
        lemma_insert_facts(rp, s.last(), key);
        assert forall|i: int| 0 <= i < r.len() implies s.contains(#[trigger] r[i]) by {
            if r[i] == s.last() {
                assert(s[s.len() - 1] == r[i]);
            } else {
                assert(rp.contains(r[i]));
                let w = choose|j: int| 0 <= j < rp.len() && rp[j] == r[i];
                assert(sp.contains(rp[w]));
                let w2 = choose|j: int| 0 <= j < sp.len() && sp[j] == rp[w];
                assert(s[w2] == r[i]);
            }
        }
        assert forall|k: int| 0 <= k < s.len() implies r.contains(#[trigger] s[k]) by {
            if k < s.len() - 1 {
                assert(sp[k] == s[k]);
                assert(rp.contains(sp[k]));
                let w = choose|j: int| 0 <= j < rp.len() && rp[j] == sp[k];
                assert(r.contains(rp[w]));
            }
        }
    }
}

/// The positions `0..n`.
pub open spec fn positions(n: nat) -> Seq<usize> {
    Seq::new(n, |i: int| i as usize)
}

/// The processes ranked by CPU usage, busiest first (ties keep input order).
pub open spec fn by_cpu(cpu: Seq<u64>) -> Seq<usize> {
    sort_desc(positions(cpu.len()), cpu)
}

/// The CPU ranking re-ranked by memory share, largest first.
pub open spec fn by_mem(cpu: Seq<u64>, mem: Seq<u64>) -> Seq<usize> {
    sort_desc(by_cpu(cpu), mem)
}

/// The first `PROC_LIMIT` entries of a ranking (all of it when shorter).
pub open spec fn top(s: Seq<usize>) -> Seq<usize> {
    if s.len() <= PROC_LIMIT {
        s
    } else {
        s.take(PROC_LIMIT as int)
    }
}

/// The entries of `s` that occur in `t1` or `t2`, in order.
pub open spec fn retain_kept(s: Seq<usize>, t1: Seq<usize>, t2: Seq<usize>) -> Seq<usize>
    decreases s.len(),
{
    if s.len() == 0 {
        s
    } else {
        let r = retain_kept(s.drop_last(), t1, t2);
        if t1.contains(s.last()) || t2.contains(s.last()) {
            r.push(s.last())
        } else {
            r
        }
    }
}

/// The process view's selection: the union of the top `PROC_LIMIT` by CPU
/// and the top `PROC_LIMIT` by memory, in memory order, then sorted by the
/// larger of the two, largest first.
pub open spec fn selected(cpu: Seq<u64>, mem: Seq<u64>, notable: Seq<u64>) -> Seq<usize> {
    sort_desc(retain_kept(by_mem(cpu, mem), top(by_cpu(cpu)), top(by_mem(cpu, mem))), notable)
}

proof fn lemma_retain_facts(s: Seq<usize>, t1: Seq<usize>, t2: Seq<usize>)
    ensures
        forall|i: int|
            0 <= i < retain_kept(s, t1, t2).len() ==> s.contains(#[trigger] retain_kept(s, t1, t2)[i]),
        forall|k: int|
            0 <= k < s.len() && (t1.contains(s[k]) || t2.contains(s[k])) ==> retain_kept(
                s,
                t1,
                t2,
            ).contains(#[trigger] s[k]),
    decreases s.len(),
{
    if s.len() > 0 {
        let sp = s.drop_last();
        let rp = retain_kept(sp, t1, t2);
        let r = retain_kept(s, t1, t2);
        lemma_retain_facts(sp, t1, t2);
        assert forall|i: int| 0 <= i < r.len() implies s.contains(#[trigger] r[i]) by {
            if i < rp.len() {
                assert(r[i] == rp[i]);
                let w = choose|j: int| 0 <= j < sp.len() && sp[j] == rp[i];
                assert(s[w] == r[i]);
            } else {
                assert(s[s.len() - 1] == r[i]);
            }
        }
        assert forall|k: int|
            0 <= k < s.len() && (t1.contains(s[k]) || t2.contains(s[k])) implies r.contains(
            #[trigger] s[k],
        ) by {
            if k == s.len() - 1 {
                assert(r[r.len() - 1] == s[k]);
            } else {
                assert(sp[k] == s[k]);
                let w = choose|j: int| 0 <= j < rp.len() && rp[j] == sp[k];
                assert(r[w] == s[k]);
            }
        }
    }
}

/// `s` sorted by `key`, largest first, stably.
fn sort_by_key_desc(s: &Vec<usize>, key: &Vec<u64>) -> (r: Vec<usize>)
    requires
        in_range(s@, key@.len() as int),
    ensures
        r@ == sort_desc(s@, key@),
        in_range(r@, key@.len() as int),
{
    let mut out: Vec<usize> = Vec::new();
    let mut i: usize = 0;
    assert(s@.take(0) =~= Seq::<usize>::empty());
    while i < s.len()
        invariant
            in_range(s@, key@.len() as int),
            0 <= i <= s.len(),
            out@ == sort_desc(s@.take(i as int), key@),
            in_range(out@, key@.len() as int),
        decreases s.len() - i,
    {
        let x = s[i];
        let mut p: usize = out.len();
        while p > 0 && key[out[p - 1]] < key[x]
            invariant
                in_range(out@, key@.len() as int),
                x < key@.len(),
                0 <= p <= out.len(),
                forall|j: int| p <= j < out@.len() ==> key@[#[trigger] out@[j] as int] < key@[x as int],
            decreases p,
        {
            p -= 1;
        }
        proof {
            lemma_insert_at(out@, x, key@, p as int);
            assert(s@.take(i + 1).drop_last() =~= s@.take(i as int));
            lemma_insert_facts(out@, x, key@);
            assert forall|j: int| 0 <= j < insert_desc(out@, x, key@).len() implies #[trigger] insert_desc(
                out@,
                x,
                key@,
            )[j] < key@.len() by {
                let r = insert_desc(out@, x, key@);
                if r[j] != x {
                    let w = choose|m: int| 0 <= m < out@.len() && out@[m] == r[j];
                }
            }
        }
        out.insert(p, x);
        assert(out@ =~= sort_desc(s@.take(i + 1), key@));
        i += 1;
    }
    assert(s@.take(s.len() as int) =~= s@);
    out
}

proof fn lemma_insert_at(l: Seq<usize>, x: usize, key: Seq<u64>, p: int)
    requires
        0 <= p <= l.len(),
        forall|j: int| p <= j < l.len() ==> key[#[trigger] l[j] as int] < key[x as int],
        p == 0 || key[l[p - 1] as int] >= key[x as int],
    ensures
        insert_desc(l, x, key) == l.insert(p, x),
    decreases l.len(),
{
    if l.len() == 0 {
        assert(l.insert(p, x) =~= seq![x]);
    } else if p == l.len() {
        assert(l.insert(p, x) =~= l.push(x));
    } else {
        let lp = l.drop_last();
        lemma_insert_at(lp, x, key, p);
        assert(l.insert(p, x) =~= lp.insert(p, x).push(l.last()));
    }
}

/// Whether `x` occurs among the first `lim` entries of `s`.
fn occurs_in_first(s: &Vec<usize>, lim: usize, x: usize) -> (r: bool)
    requires
        lim <= s.len(),
    ensures
        r == s@.take(lim as int).contains(x),
{
    let mut i: usize = 0;
    while i < lim
        invariant
            lim <= s.len(),
            0 <= i <= lim,
            forall|j: int| 0 <= j < i ==> s@[j] != x,
        decreases lim - i,
    {
        if s[i] == x {
            assert(s@.take(lim as int)[i as int] == x);
            return true;
        }
        i += 1;
    }
    false
}

/// Choose the processes for the process view, given their order keys by CPU,
/// by memory and by the larger of the two: keep the union of the top
/// `PROC_LIMIT` by CPU and the top `PROC_LIMIT` by memory (so either sort of
/// the view shows a correct top list), ordered by the larger key, most
/// notable first. Returns positions into the key vectors.
pub fn select_procs(cpu: &Vec<u64>, mem: &Vec<u64>, notable: &Vec<u64>) -> (r: Vec<usize>)
    requires
        cpu@.len() == mem@.len(),
        mem@.len() == notable@.len(),
    ensures
        r@ == selected(cpu@, mem@, notable@),
        in_range(r@, cpu@.len() as int),
{
    let n = cpu.len();
    let a = view_order(cpu);
    let b = sort_by_key_desc(&a, mem);
    let la = if a.len() <= PROC_LIMIT {
        a.len()
    } else {
        PROC_LIMIT
    };
    let lb = if b.len() <= PROC_LIMIT {
        b.len()
    } else {
        PROC_LIMIT
    };
    proof {
        lemma_sort_facts(positions(cpu@.len()), cpu@);
        lemma_sort_facts(a@, mem@);
        assert(a@.take(la as int) =~= top(a@));
        assert(b@.take(lb as int) =~= top(b@));
    }
    let mut kept: Vec<usize> = Vec::new();
    let mut k: usize = 0;
    assert(b@.take(0) =~= Seq::<usize>::empty());
    while k < b.len()
        invariant
            in_range(b@, n as int),
            la <= a.len(),
            lb <= b.len(),
            a@.take(la as int) == top(a@),
            b@.take(lb as int) == top(b@),
            0 <= k <= b.len(),
            kept@ == retain_kept(b@.take(k as int), top(a@), top(b@)),
            in_range(kept@, n as int),
        decreases b.len() - k,
    {
        let x = b[k];
        assert(b@.take(k + 1).drop_last() =~= b@.take(k as int));
        if occurs_in_first(&a, la, x) || occurs_in_first(&b, lb, x) {
            kept.push(x);
        }
        k += 1;
    }
    assert(b@.take(b.len() as int) =~= b@);
    sort_by_key_desc(&kept, notable)
}

/// A process the view leaves out is outranked: there are more than
/// `PROC_LIMIT` processes, and the `PROC_LIMIT` busiest by CPU and the
/// `PROC_LIMIT` largest by memory are all kept and all rank at least as high
/// as it by that resource. The view is sorted by the larger key.
pub proof fn lemma_selection_is_top(cpu: Seq<u64>, mem: Seq<u64>, notable: Seq<u64>, i: usize)
    requires
        cpu.len() == mem.len(),
        mem.len() == notable.len(),
    ensures
        sorted_desc(selected(cpu, mem, notable), notable),
        i < cpu.len() && !selected(cpu, mem, notable).contains(i) ==> {
            &&& cpu.len() > PROC_LIMIT
            &&& forall|j: int|
                0 <= j < PROC_LIMIT ==> selected(cpu, mem, notable).contains(
                    #[trigger] by_cpu(cpu)[j],
                ) && cpu[by_cpu(cpu)[j] as int] >= cpu[i as int]
            &&& forall|j: int|
                0 <= j < PROC_LIMIT ==> selected(cpu, mem, notable).contains(
                    #[trigger] by_mem(cpu, mem)[j],
                ) && mem[by_mem(cpu, mem)[j] as int] >= mem[i as int]
        },
{
    let ids = positions(cpu.len());
    let a = by_cpu(cpu);
    let b = by_mem(cpu, mem);
    let kept = retain_kept(b, top(a), top(b));
    let d = selected(cpu, mem, notable);
    lemma_sort_facts(ids, cpu);
    lemma_sort_facts(a, mem);
    lemma_retain_facts(b, top(a), top(b));
    lemma_sort_facts(kept, notable);
    if i < cpu.len() && !d.contains(i) {
        // `i` is somewhere in both rankings.
        assert(ids[i as int] == i);
        assert(a.contains(i));
        let ma = choose|m: int| 0 <= m < a.len() && a[m] == i;
        assert(b.contains(a[ma]));
        let mb = choose|m: int| 0 <= m < b.len() && b[m] == i;
        // Every process among the top of either ranking is kept.
        assert forall|x: usize| (top(a).contains(x) || top(b).contains(x)) && b.contains(x)
            implies #[trigger] d.contains(x) by {
            let w = choose|m: int| 0 <= m < b.len() && b[m] == x;
            assert(kept.contains(b[w]));
            let w2 = choose|m: int| 0 <= m < kept.len() && kept[m] == x;
            assert(d.contains(kept[w2]));
        }
        if ma < PROC_LIMIT || a.len() <= PROC_LIMIT {
            assert(top(a)[ma] == i);
            assert(d.contains(i));
        }
        if mb < PROC_LIMIT || b.len() <= PROC_LIMIT {
            assert(top(b)[mb] == i);
            assert(d.contains(i));
        }
        assert forall|j: int| 0 <= j < PROC_LIMIT implies d.contains(#[trigger] a[j]) && cpu[a[j]
            as int] >= cpu[i as int] by {
            assert(top(a)[j] == a[j]);
            assert(b.contains(a[j]));
        }
        assert forall|j: int| 0 <= j < PROC_LIMIT implies d.contains(#[trigger] b[j]) && mem[b[j]
            as int] >= mem[i as int] by {
            assert(top(b)[j] == b[j]);
            assert(b[j] == b[j]);
        }
    }
}

/// The order in which the process view lists `keys.len()` processes: by the
/// chosen key (CPU or memory), largest first, ties in their given order.
pub fn view_order(keys: &Vec<u64>) -> (r: Vec<usize>)
    ensures
        r@ == sort_desc(positions(keys@.len()), keys@),
        in_range(r@, keys@.len() as int),
{
    let n = keys.len();
    let mut ids: Vec<usize> = Vec::new();
    let mut i: usize = 0;
    while i < n
        invariant
            n == keys.len(),
            0 <= i <= n,
            ids@ == positions(i as nat),
        decreases n - i,
    {
        ids.push(i);
        assert(ids@ =~= positions((i + 1) as nat));
        i += 1;
    }
    sort_by_key_desc(&ids, keys)
}

} // verus!
