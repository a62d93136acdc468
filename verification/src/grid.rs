use vstd::prelude::*;

verus! {

/// A cell of a sensor-by-axial grid: `(sensor, axial)`.
pub type Cell = (usize, usize);

/// The cells in row `r` of a grid with `cols` columns.
pub open spec fn row_cells(r: usize, cols: nat) -> Set<Cell>
    decreases cols,
{
    if cols == 0 {
        Set::empty()
    } else {
        row_cells(r, (cols - 1) as nat).insert((r, (cols - 1) as usize))
    }
}

/// All cells of a `rows` by `cols` grid.
pub open spec fn rect_cells(rows: nat, cols: nat) -> Set<Cell>
    decreases rows,
{
    if rows == 0 {
        Set::empty()
    } else {
        rect_cells((rows - 1) as nat, cols).union(row_cells((rows - 1) as usize, cols))
    }
}

/// Whether cell `p` lies inside a `rows` by `cols` grid.
pub open spec fn in_rect(rows: int, cols: int, p: Cell) -> bool {
    p.0 < rows && p.1 < cols
}

pub proof fn lemma_row_cells(r: usize, cols: nat)
    requires
        cols <= usize::MAX + 1,
    ensures
        row_cells(r, cols).finite(),
        row_cells(r, cols).len() <= cols,
        forall|p: Cell| #[trigger] row_cells(r, cols).contains(p) <==> (p.0 == r && p.1 < cols),
    decreases cols,
{
    if cols > 0 {
        lemma_row_cells(r, (cols - 1) as nat);
    }
}

pub proof fn lemma_rect_cells(rows: nat, cols: nat)
    requires
        rows <= usize::MAX + 1,
        cols <= usize::MAX + 1,
    ensures
        rect_cells(rows, cols).finite(),
        rect_cells(rows, cols).len() <= rows * cols,
        forall|p: Cell| #[trigger] rect_cells(rows, cols).contains(p) <==> in_rect(rows as int, cols as int, p),
    decreases rows,
{
    if rows > 0 {
        let r = (rows - 1) as nat;
        lemma_rect_cells(r, cols);
        lemma_row_cells(r as usize, cols);
        vstd::set_lib::lemma_len_union(rect_cells(r, cols), row_cells(r as usize, cols));
        assert(r * cols + cols == rows * cols) by (nonlinear_arith)
            requires
                r + 1 == rows,
        ;
    }
}

/// A set of cells inside a `rows` by `cols` grid is finite and has at most
/// `rows * cols` elements.
pub proof fn lemma_cells_bounded(s: Set<Cell>, rows: nat, cols: nat)
    requires
        rows <= usize::MAX + 1,
        cols <= usize::MAX + 1,
        forall|p: Cell| #[trigger] s.contains(p) ==> in_rect(rows as int, cols as int, p),
    ensures
        s.finite(),
        s.len() <= rows * cols,
{
    lemma_rect_cells(rows, cols);
    assert(s.subset_of(rect_cells(rows, cols)));
    vstd::set_lib::lemma_len_subset(s, rect_cells(rows, cols));
}

/// Row-major position of a cell in a grid with `cols` columns.
pub open spec fn flat_index(cols: int, p: Cell) -> int {
    p.0 * cols + p.1
}

pub proof fn lemma_flat_index(rows: int, cols: int, p: Cell, q: Cell)
    requires
        in_rect(rows, cols, p),
        in_rect(rows, cols, q),
    ensures
        0 <= flat_index(cols, p) < rows * cols,
        p != q ==> flat_index(cols, p) != flat_index(cols, q),
        flat_index(cols, p) < flat_index(cols, q) <==> (p.0 < q.0 || (p.0 == q.0 && p.1 < q.1)),
{
    let (p0, p1, q0, q1) = (p.0 as int, p.1 as int, q.0 as int, q.1 as int);
    assert(0 <= p0 * cols + p1 < rows * cols) by (nonlinear_arith)
        requires
            0 <= p0 < rows,
            0 <= p1 < cols,
    ;
    assert(p0 < q0 ==> p0 * cols + p1 < q0 * cols + q1) by (nonlinear_arith)
        requires
            0 <= p1 < cols,
            0 <= q1,
    ;
    assert(q0 < p0 ==> q0 * cols + q1 < p0 * cols + p1) by (nonlinear_arith)
        requires
            0 <= q1 < cols,
            0 <= p1,
    ;
}

} // verus!
