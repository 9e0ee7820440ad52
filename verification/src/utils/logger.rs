//! Which log files to remove when the log directory holds too many: the
//! decision behind the logger's rotation. The files themselves are listed
//! and removed by the program.

use vstd::prelude::*;

verus! {

/// Whether `k` is one of the entries of `order`.
spec fn listed(order: Seq<usize>, k: int) -> bool {
    exists|b: int| 0 <= b < order.len() && order[b] == k
}

/// The indices of the log files to remove so that at most `max_files`
/// remain, given each file's modification time: as many as there are files
/// over `max_files`, each file at most once, and none newer than a file that
/// stays.
pub fn logs_to_remove(modified: &Vec<u64>, max_files: usize) -> (r: Vec<usize>)
    ensures
        r.len() == if modified.len() > max_files { modified.len() - max_files } else { 0 },
        forall|a: int, b: int| 0 <= a < b < r.len() ==> r[a] != r[b],
        forall|a: int| 0 <= a < r.len() ==> r[a] < modified.len(),
        forall|a: int, k: int|
            0 <= a < r.len() && 0 <= k < modified.len() && !r@.contains(k as usize)
                ==> modified[#[trigger] r[a] as int] <= #[trigger] modified[k],
{
    let n = modified.len();
    let count = if n > max_files { n - max_files } else { 0 };
    // `order` is a permutation of the file indices whose first `p` entries
    // are the `p` oldest files.
    let mut order: Vec<usize> = Vec::new();
    let mut i: usize = 0;
    while i < n
        invariant
            i <= n,
            order.len() == i,
            forall|j: int| 0 <= j < i ==> order[j] == j,
        decreases n - i,
    {
        order.push(i);
        i = i + 1;
    }
    assert forall|k: int| 0 <= k < n implies #[trigger] listed(order@, k) by {
        assert(order[k] == k);
    }
    let mut p: usize = 0;
    while p < count
        invariant
            n == modified.len(),
            count <= n,
            p <= count,
            order.len() == n,
            forall|a: int, b: int| 0 <= a < b < n ==> order[a] != order[b],
            forall|a: int| 0 <= a < n ==> order[a] < n,
            forall|k: int| 0 <= k < n ==> #[trigger] listed(order@, k),
            forall|a: int, b: int|
                0 <= a < p && p <= b < n ==> modified[order[a] as int] <= modified[order[b] as int],
        decreases count - p,
    {
        let mut best: usize = p;
        let mut q: usize = p + 1;
        while q < n
            invariant
                n == modified.len(),
                order.len() == n,
                forall|a: int| 0 <= a < n ==> order[a] < n,
                p < n,
                p <= best < q,
                q <= n,
                forall|b: int| p <= b < q ==> modified[order[best as int] as int] <= modified[order[b] as int],
            decreases n - q,
        {
            if modified[order[q]] < modified[order[best]] {
                best = q;
            }
            q = q + 1;
        }
        let ghost old_order = order@;
        let first = order[p];
        let oldest = order[best];
        order.set(p, oldest);
        order.set(best, first);
        assert forall|a: int, b: int| 0 <= a < b < n implies order[a] != order[b] by {
            let sa = if a == p { best as int } else if a == best { p as int } else { a };
            let sb = if b == p { best as int } else if b == best { p as int } else { b };
            assert(order[a] == old_order[sa]);
            assert(order[b] == old_order[sb]);
            if sa < sb {
                assert(old_order[sa] != old_order[sb]);
            } else {
                assert(old_order[sb] != old_order[sa]);
            }
        }
        assert forall|k: int| 0 <= k < n implies #[trigger] listed(order@, k) by {
            assert(listed(old_order, k));
            let b0 = choose|b: int| 0 <= b < old_order.len() && old_order[b] == k;
            if b0 == p {
                assert(order[best as int] == k);
            } else if b0 == best {
                assert(order[p as int] == k);
            } else {
                assert(order[b0] == k);
            }
        }
        assert forall|a: int, b: int|
            0 <= a < p + 1 && p + 1 <= b < n implies modified[order[a] as int] <= modified[order[b] as int] by {
            if b == best {
                assert(order[b] == old_order[p as int]);
            } else {
                assert(order[b] == old_order[b]);
            }
            if a < p {
                assert(order[a] == old_order[a]);
            }
        }
        p = p + 1;
    }
    let mut r: Vec<usize> = Vec::new();
    let mut j: usize = 0;
    while j < count
        invariant
            j <= count,
            count <= n,
            order.len() == n,
            r.len() == j,
            forall|a: int| 0 <= a < j ==> r[a] == order[a],
        decreases count - j,
    {
        r.push(order[j]);
        j = j + 1;
    }
    assert forall|a: int, k: int|
        0 <= a < r.len() && 0 <= k < modified.len() && !r@.contains(k as usize)
            implies modified[#[trigger] r[a] as int] <= #[trigger] modified[k] by {
        assert(listed(order@, k));
        let b = choose|b: int| 0 <= b < order@.len() && order[b] == k;
        if b < count {
            assert(r[b] == k);
            assert(r@.contains(k as usize));
        }
    }
    r
}

} // verus!
