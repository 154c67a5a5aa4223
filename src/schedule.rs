use vstd::prelude::*;

verus! {

/// Row `y` falls to worker `worker` of `workers`: rows are dealt out in turn.
pub open spec fn assigned(y: int, worker: int, workers: int) -> bool {
    y % workers == worker
}

/// The rows below `height` that worker `worker` of `workers` renders, in
/// ascending order. Each row falls to exactly one worker, so the workers
/// together render every row once.
pub fn worker_rows(worker: usize, workers: usize, height: usize) -> (r: Vec<usize>)
    requires
        worker < workers,
    ensures
        forall|k: int| 0 <= k < r@.len() ==> #[trigger] r@[k] < height && assigned(
            r@[k] as int,
            worker as int,
            workers as int,
        ),
        forall|k1: int, k2: int| 0 <= k1 < k2 < r@.len() ==> #[trigger] r@[k1] < #[trigger] r@[k2],
        forall|y: int|
            0 <= y < height && #[trigger] assigned(y, worker as int, workers as int) ==> r@.contains(
                y as usize,
            ),
{
    let mut r: Vec<usize> = Vec::new();
    let mut y: usize = 0;
    while y < height
        invariant
            y <= height,
            worker < workers,
            forall|k: int| 0 <= k < r@.len() ==> #[trigger] r@[k] < y && assigned(
                r@[k] as int,
                worker as int,
                workers as int,
            ),
            forall|k1: int, k2: int| 0 <= k1 < k2 < r@.len() ==> #[trigger] r@[k1] < #[trigger] r@[k2],
            forall|z: int|
                0 <= z < y && #[trigger] assigned(z, worker as int, workers as int) ==> r@.contains(
                    z as usize,
                ),
        decreases height - y,
    {
        if y % workers == worker {
            let ghost before = r@;
            r.push(y);
            assert forall|z: int|
                0 <= z < y + 1 && #[trigger] assigned(z, worker as int, workers as int) implies r@.contains(
                z as usize,
            ) by {
                if z < y {
                    let k = choose|k: int| 0 <= k < before.len() && before[k] == z as usize;
                    assert(r@[k] == z as usize);
                } else {
                    assert(r@[before.len() as int] == z as usize);
                }
            }
        } else {
            assert forall|z: int|
                0 <= z < y + 1 && #[trigger] assigned(z, worker as int, workers as int) implies r@.contains(
                z as usize,
            ) by {
                if z == y {
                    assert(!assigned(z, worker as int, workers as int));
                }
            }
        }
        y = y + 1;
    }
    r
}

/// Every row falls to exactly one worker.
pub proof fn lemma_one_worker_per_row(y: int, workers: int)
    requires
        0 <= y,
        0 < workers,
    ensures
        0 <= y % workers < workers,
        assigned(y, y % workers, workers),
        forall|w: int| #[trigger] assigned(y, w, workers) ==> w == y % workers,
{
}

} // verus!
