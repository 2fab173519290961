//! Handing work out to threads.

use vstd::prelude::*;
use crate::crud_model::crud_operation::CRUDOperation;

verus! {

/// The transactions from `from` up to, not including, `to`.
fn copy_range(operations: &[CRUDOperation], from: usize, to: usize) -> (part: Vec<CRUDOperation>)
    requires
        from <= to <= operations@.len(),
    ensures
        part@ == operations@.subrange(from as int, to as int),
{
    let mut part: Vec<CRUDOperation> = Vec::new();
    let mut i: usize = from;
    while i < to
        invariant
            from <= i <= to <= operations@.len(),
            part@ == operations@.subrange(from as int, i as int),
        decreases to - i,
    {
        part.push(operations[i]);
        assert(part@ =~= operations@.subrange(from as int, i + 1));
        i = i + 1;
    }
    part
}

/// How many chunks of a size it takes to hold a number of transactions.
pub open spec fn chunk_count(len: int, size: int) -> int {
    (len + size - 1) / size
}

/// The end of a chunk.
pub open spec fn chunk_end(len: int, size: int, i: int) -> int {
    if (i + 1) * size <= len {
        (i + 1) * size
    } else {
        len
    }
}

/// `part` is the chunk at position `i`.
pub open spec fn is_chunk(
    operations: Seq<CRUDOperation>,
    size: int,
    i: int,
    part: Seq<CRUDOperation>,
) -> bool {
    let end = chunk_end(operations.len() as int, size, i);
    &&& 0 <= i * size <= end <= operations.len()
    &&& part == operations.subrange(i * size, end)
}

/// `part` is the slice at position `i`.
pub open spec fn is_slice(
    operations: Seq<CRUDOperation>,
    size: int,
    i: int,
    part: Seq<CRUDOperation>,
) -> bool {
    &&& 0 <= i * size <= (i + 1) * size <= operations.len()
    &&& part == operations.subrange(i * size, (i + 1) * size)
}

/// `parts` are the consecutive chunks of `operations`, each of `size` transactions but for the
/// last, which may be shorter.
pub open spec fn chunked(
    operations: Seq<CRUDOperation>,
    size: int,
    parts: Seq<Vec<CRUDOperation>>,
) -> bool {
    &&& parts.len() == chunk_count(operations.len() as int, size)
    &&& forall|i: int| #![trigger parts[i]]
        0 <= i < parts.len() ==> is_chunk(operations, size, i, parts[i]@)
}

/// Cuts transactions into chunks.
pub fn chunks(operations: &[CRUDOperation], size: usize) -> (parts: Vec<Vec<CRUDOperation>>)
    requires
        size > 0,
    ensures
        chunked(operations@, size as int, parts@),
{
    let len: usize = operations.len();
    let mut parts: Vec<Vec<CRUDOperation>> = Vec::new();
    let mut from: usize = 0;
    assert(0 * size == 0);
    while from < len
        invariant
            size > 0,
            len == operations@.len(),
            from <= len,
            from == parts@.len() * size || from == len,
            from < len ==> from == parts@.len() * size,
            from == len ==> (parts@.len() - 1) * size < len <= parts@.len() * size,
            forall|i: int| #![trigger parts@[i]]
                0 <= i < parts@.len() ==> is_chunk(operations@, size as int, i, parts@[i]@),
        decreases len - from,
    {
        let ghost n = parts@.len() as int;
        proof {
            assert((n + 1) * size == n * size + size) by (nonlinear_arith);
        }
        let to: usize = if len - from >= size {
            from + size
        } else {
            len
        };
        parts.push(copy_range(operations, from, to));
        assert(is_chunk(operations@, size as int, n, parts@[n]@));
        from = to;
    }
    proof {
        let n = parts@.len() as int;
        let l = len as int;
        let z = size as int;
        assert((l + z - 1) / z == n) by (nonlinear_arith)
            requires
                z > 0,
                (n - 1) * z < l,
                l <= n * z,
        ;
    }
    parts
}

/// Hands transactions out to workers in slices of equal length. What is left over goes to the
/// first worker.
pub fn split_work(operations: &[CRUDOperation], workers: usize) -> (work: Vec<Vec<CRUDOperation>>)
    requires
        workers > 0,
    ensures
        work@.len() == workers,
        0 <= workers * (operations@.len() as int / workers as int) <= operations@.len(),
        ({
            let slice = operations@.len() as int / workers as int;
            &&& work@[0]@ == operations@.subrange(0, slice) + operations@.skip(workers * slice)
            &&& forall|i: int| #![trigger work@[i]]
                0 < i < workers ==> is_slice(operations@, slice, i, work@[i]@)
        }),
{
    let len: usize = operations.len();
    let slice: usize = len / workers;
    let ghost l = len as int;
    let ghost w = workers as int;
    let ghost z = slice as int;
    proof {
        assert(w * (l / w) <= l && l / w >= 0) by (nonlinear_arith)
            requires
                w > 0,
                l >= 0,
        ;
        assert(w * z <= l);
        assert(w * z >= 0) by (nonlinear_arith)
            requires
                w > 0,
                z >= 0,
        ;
    }
    let mut work: Vec<Vec<CRUDOperation>> = Vec::new();
    let mut from: usize = 0;
    let mut i: usize = 0;
    assert(0 * z == 0);
    while i < workers
        invariant
            i <= workers,
            work@.len() == i,
            len == operations@.len(),
            l == len,
            w == workers,
            z == slice,
            w * z <= l,
            from == i * z,
            forall|k: int| #![trigger work@[k]]
                0 <= k < i ==> is_slice(operations@, z, k, work@[k]@),
        decreases workers - i,
    {
        proof {
            let k = i as int;
            assert((k + 1) * z == k * z + z) by (nonlinear_arith);
            assert((k + 1) * z <= w * z) by (nonlinear_arith)
                requires
                    k + 1 <= w,
                    z >= 0,
            ;
        }
        work.push(copy_range(operations, from, from + slice));
        assert(is_slice(operations@, z, i as int, work@[i as int]@));
        from = from + slice;
        i = i + 1;
    }
    let mut rest = copy_range(operations, from, len);
    assert(0 * z == 0 && (0 + 1) * z == z) by (nonlinear_arith);
    assert(work@[0]@ == operations@.subrange(0, z));
    let ghost before = work@;
    work[0].append(&mut rest);
    assert(work@[0]@ =~= operations@.subrange(0, z) + operations@.skip(w * z));
    assert forall|k: int| #![trigger work@[k]] 0 < k < workers implies is_slice(
        operations@,
        z,
        k,
        work@[k]@,
    ) by {
        assert(work@[k] == before[k]);
    }
    work
}

/// Hands transactions out to workers in chunks. If there are more chunks than workers, the last
/// chunk goes to the first worker on top; what lies between is handed to nobody.
pub fn bulk_chunks(operations: &[CRUDOperation], workers: usize) -> (work: Vec<
    Vec<CRUDOperation>,
>)
    requires
        0 < workers <= operations@.len(),
    ensures
        work@.len() == workers,
        ({
            let size = operations@.len() as int / workers as int;
            let count = chunk_count(operations@.len() as int, size);
            &&& forall|i: int| #![trigger work@[i]]
                0 < i < workers ==> is_slice(operations@, size, i, work@[i]@)
            &&& work@[0]@ == operations@.subrange(0, size) + if count > workers {
                operations@.skip((count - 1) * size)
            } else {
                Seq::empty()
            }
        }),
{
    let len: usize = operations.len();
    let size: usize = len / workers;
    let ghost l = len as int;
    let ghost w = workers as int;
    let ghost z = size as int;
    proof {
        assert(l / w >= 1 && w * (l / w) <= l) by (nonlinear_arith)
            requires
                w > 0,
                l >= w,
        ;
    }
    let mut parts = chunks(operations, size);
    let ghost all = parts@;
    let ghost count = chunk_count(l, z);
    proof {
        assert((l + z - 1) / z >= w) by (nonlinear_arith)
            requires
                z > 0,
                w * z <= l,
        ;
        assert forall|i: int| 0 <= i < w implies #[trigger] ((i + 1) * z) <= l by {
            assert((i + 1) * z <= w * z) by (nonlinear_arith)
                requires
                    i + 1 <= w,
                    z > 0,
            ;
        }
        assert forall|i: int| #![trigger all[i]] 0 <= i < w implies is_slice(
            operations@,
            z,
            i,
            all[i]@,
        ) by {
            assert((i + 1) * z <= l);
            assert(is_chunk(operations@, z, i, all[i]@));
            assert((i + 1) * z == i * z + z) by (nonlinear_arith);
        }
        assert(0 * z == 0 && (0 + 1) * z == z) by (nonlinear_arith);
    }
    let mut last: Vec<CRUDOperation> = Vec::new();
    if parts.len() > workers {
        last = parts.pop().unwrap();
        proof {
            let n = count - 1;
            assert(is_chunk(operations@, z, n, all[n]@));
            assert((n + 1) * z >= l) by (nonlinear_arith)
                requires
                    n + 1 == (l + z - 1) / z,
                    z > 0,
            ;
            assert(last@ =~= operations@.skip(n * z));
        }
    }
    let ghost extra = last@;
    parts.truncate(workers);
    assert(parts@[0] == all[0]);
    let ghost cut = parts@;
    parts[0].append(&mut last);
    assert(parts@[0]@ =~= operations@.subrange(0, z) + extra);
    assert forall|i: int| #![trigger parts@[i]] 0 < i < workers implies is_slice(
        operations@,
        z,
        i,
        parts@[i]@,
    ) by {
        assert(parts@[i] == cut[i]);
        assert(cut[i] == all[i]);
    }
    parts
}

/// Slices lose nothing: every transaction is handed to some worker.
pub proof fn law_split_is_complete(
    operations: Seq<CRUDOperation>,
    workers: int,
    work: Seq<Vec<CRUDOperation>>,
    at: int,
)
    requires
        workers > 0,
        work.len() == workers,
        ({
            let slice = operations.len() as int / workers;
            &&& work[0]@ == operations.subrange(0, slice) + operations.skip(workers * slice)
            &&& forall|i: int| #![trigger work[i]]
                0 < i < workers ==> is_slice(operations, slice, i, work[i]@)
        }),
        0 <= at < operations.len(),
    ensures
        exists|i: int, k: int|
            0 <= i < workers && 0 <= k < work[i]@.len() && #[trigger] work[i]@[k]
                == operations[at],
{
    let l = operations.len() as int;
    let slice = l / workers;
    assert(workers * slice <= l && slice >= 0) by (nonlinear_arith)
        requires
            workers > 0,
            l >= 0,
            slice == l / workers,
    ;
    assert(workers * slice >= 0) by (nonlinear_arith)
        requires
            workers > 0,
            slice >= 0,
    ;
    assert(slice <= workers * slice) by (nonlinear_arith)
        requires
            workers > 0,
            slice >= 0,
    ;
    if at >= workers * slice {
        let k = slice + (at - workers * slice);
        assert(work[0]@[k] == operations[at]);
    } else if at < slice {
        assert(work[0]@[at] == operations[at]);
    } else {
        let i = at / slice;
        let k = at % slice;
        assert(0 < i < workers && i * slice + k == at && 0 <= k < slice && (i + 1) * slice
            <= l) by (nonlinear_arith)
            requires
                slice > 0,
                slice <= at < workers * slice,
                workers * slice <= l,
                i == at / slice,
                k == at % slice,
        ;
        assert((i + 1) * slice == i * slice + slice) by (nonlinear_arith);
        assert(i * slice >= 0) by (nonlinear_arith)
            requires
                i > 0,
                slice > 0,
        ;
        assert(work[i]@[k] == operations[at]);
    }
}

} // verus!
