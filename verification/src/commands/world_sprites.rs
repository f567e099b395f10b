//! The order in which a fixture world's things and pawns are drawn.
use vstd::prelude::*;

verus! {

/// Entity `a` is drawn before entity `b`: by cell row (`z`), then column
/// (`x`), then id, and in list order where all three agree.
pub open spec fn drawn_before(cells: Seq<(i32, i32, usize)>, a: int, b: int) -> bool {
    let (ax, az, aid) = cells[a];
    let (bx, bz, bid) = cells[b];
    ||| az < bz
    ||| az == bz && ax < bx
    ||| az == bz && ax == bx && aid < bid
    ||| az == bz && ax == bx && aid == bid && a < b
}

/// `a` sorts before `b` by row, column and id.
fn key_before(a: (i32, i32, usize), b: (i32, i32, usize)) -> (r: bool)
    ensures
        r == (a.1 < b.1 || (a.1 == b.1 && a.0 < b.0) || (a.1 == b.1 && a.0 == b.0 && a.2 < b.2)),
{
    a.1 < b.1 || (a.1 == b.1 && (a.0 < b.0 || (a.0 == b.0 && a.2 < b.2)))
}

/// The draw order of entities given as `(cell_x, cell_z, id)`: every index
/// once, sorted by `drawn_before` (a stable sort by row, column and id).
pub fn cell_draw_order(cells: &[(i32, i32, usize)]) -> (r: Vec<usize>)
    ensures
        r@.len() == cells@.len(),
        forall|i: int| 0 <= i < r@.len() ==> r@[i] < cells@.len(),
        forall|i: int, j: int| 0 <= i < j < r@.len() ==> drawn_before(cells@, #[trigger] r@[i] as int, #[trigger] r@[j] as int),
{
    let mut out: Vec<usize> = Vec::new();
    let mut i: usize = 0;
    while i < cells.len()
        invariant
            i <= cells@.len(),
            out@.len() == i,
            forall|q: int| 0 <= q < out@.len() ==> out@[q] < i,
            forall|p: int, q: int| 0 <= p < q < out@.len() ==> drawn_before(cells@, #[trigger] out@[p] as int, #[trigger] out@[q] as int),
        decreases cells.len() - i,
    {
        let (x, z, id) = cells[i];
        let mut k: usize = out.len();
        while k > 0 && key_before((x, z, id), cells[out[k - 1]])
            invariant
                k <= out@.len(),
                out@.len() == i,
                i < cells@.len(),
                cells@[i as int] == (x, z, id),
                forall|q: int| 0 <= q < out@.len() ==> out@[q] < i,
                forall|p: int, q: int| 0 <= p < q < out@.len() ==> drawn_before(cells@, #[trigger] out@[p] as int, #[trigger] out@[q] as int),
                forall|q: int| k <= q < out@.len() ==> drawn_before(cells@, i as int, #[trigger] out@[q] as int),
            decreases k,
        {
            k -= 1;
        }
        let ghost before = out@;
        out.insert(k, i);
        proof {
            assert(out@ =~= before.take(k as int).push(i) + before.skip(k as int));
            if k > 0 {
                assert(drawn_before(cells@, before[k - 1] as int, i as int));
            }
            assert forall|p: int, q: int| 0 <= p < q < out@.len() implies drawn_before(cells@, #[trigger] out@[p] as int, #[trigger] out@[q] as int) by {
                if q < k {
                    assert(out@[p] == before[p] && out@[q] == before[q]);
                } else if q == k {
                    assert(out@[p] == before[p]);
                    if p < k - 1 {
                        assert(drawn_before(cells@, before[p] as int, before[k - 1] as int));
                    }
                } else if p == k {
                    assert(out@[q] == before[q - 1]);
                } else if p < k {
                    assert(out@[p] == before[p] && out@[q] == before[q - 1]);
                } else {
                    assert(out@[p] == before[p - 1] && out@[q] == before[q - 1]);
                }
            }
            assert forall|q: int| 0 <= q < out@.len() implies out@[q] < i + 1 by {
                if q < k {
                    assert(out@[q] == before[q]);
                } else if q > k {
                    assert(out@[q] == before[q - 1]);
                }
            }
        }
        i += 1;
    }
    out
}

} // verus!
