use vstd::prelude::*;
use crate::grid::{Cell, in_rect, flat_index, lemma_flat_index, lemma_cells_bounded};

verus! {

/// Number of axial columns of a mask: the length of its first row.
pub open spec fn mask_cols(mask: Seq<Vec<bool>>) -> int {
    if mask.len() == 0 {
        0
    } else {
        mask[0].len() as int
    }
}

/// Every row is at least as long as the first one.
pub open spec fn mask_well_formed(mask: Seq<Vec<bool>>) -> bool {
    forall|s: int| 0 <= s < mask.len() ==> #[trigger] mask[s].len() >= mask_cols(mask)
}

/// Cell `p` lies in the scanned grid and its wall loss is above the threshold.
pub open spec fn corroded(mask: Seq<Vec<bool>>, p: Cell) -> bool {
    in_rect(mask.len() as int, mask_cols(mask), p) && mask[p.0 as int]@[p.1 as int]
}

/// Two distinct cells that touch by an edge or a corner.
pub open spec fn adjacent(p: Cell, q: Cell) -> bool {
    p != q && -1 <= p.0 - q.0 <= 1 && -1 <= p.1 - q.1 <= 1
}

/// A set of cells from which no corroded cell can reach a corroded neighbour outside it.
pub open spec fn closed_under_adjacency(mask: Seq<Vec<bool>>, d: Set<Cell>) -> bool {
    forall|p: Cell, q: Cell|
        #![trigger d.contains(p), adjacent(p, q)]
        d.contains(p) && corroded(mask, p) && adjacent(p, q) && corroded(mask, q) ==> d.contains(q)
}

/// `c` is the 8-connected component of corroded cells that contains `seed`:
/// the least set closed under adjacency that holds `seed`.
pub open spec fn is_component(mask: Seq<Vec<bool>>, seed: Cell, c: Set<Cell>) -> bool {
    &&& c.contains(seed)
    &&& forall|p: Cell| #[trigger] c.contains(p) ==> corroded(mask, p)
    &&& closed_under_adjacency(mask, c)
    &&& forall|d: Set<Cell>|
        #[trigger] closed_under_adjacency(mask, d) && d.contains(seed) ==> c.subset_of(d)
}

/// The eight neighbour offsets, in the order in which the search visits them.
pub open spec fn neighbor_offset(k: int) -> (int, int) {
    if k == 0 {
        (-1, 0)
    } else if k == 1 {
        (1, 0)
    } else if k == 2 {
        (0, -1)
    } else if k == 3 {
        (0, 1)
    } else if k == 4 {
        (-1, -1)
    } else if k == 5 {
        (1, -1)
    } else if k == 6 {
        (-1, 1)
    } else {
        (1, 1)
    }
}

/// The `k`-th neighbour of `p`, when it lies inside the grid.
pub open spec fn neighbor_at(p: Cell, k: int, rows: int, cols: int) -> Option<Cell> {
    let ns = p.0 + neighbor_offset(k).0;
    let na = p.1 + neighbor_offset(k).1;
    if 0 <= ns < rows && 0 <= na < cols {
        Some((ns as usize, na as usize))
    } else {
        None
    }
}

spec fn offset_index(ds: int, da: int) -> int {
    if ds == -1 && da == 0 {
        0
    } else if ds == 1 && da == 0 {
        1
    } else if ds == 0 && da == -1 {
        2
    } else if ds == 0 && da == 1 {
        3
    } else if ds == -1 && da == -1 {
        4
    } else if ds == 1 && da == -1 {
        5
    } else if ds == -1 && da == 1 {
        6
    } else {
        7
    }
}

proof fn lemma_adjacent_is_neighbor(p: Cell, q: Cell, rows: int, cols: int)
    requires
        adjacent(p, q),
        in_rect(rows, cols, q),
    ensures
        0 <= offset_index(q.0 - p.0, q.1 - p.1) < 8,
        neighbor_at(p, offset_index(q.0 - p.0, q.1 - p.1), rows, cols) == Some(q),
{
}

proof fn lemma_neighbor_is_adjacent(p: Cell, k: int, rows: int, cols: int)
    requires
        0 <= k < 8,
        rows <= usize::MAX,
        cols <= usize::MAX,
        neighbor_at(p, k, rows, cols) is Some,
    ensures
        adjacent(p, neighbor_at(p, k, rows, cols)->0),
        in_rect(rows, cols, neighbor_at(p, k, rows, cols)->0),
{
}

/// One step of the depth-first search at cell `p`: looks at the neighbours of `p`
/// from the `k`-th on, in `neighbor_offset` order, and pushes each corroded one
/// not yet in `seen` onto `stack`, adding it to `seen`.
pub open spec fn push_neighbors(mask: Seq<Vec<bool>>, p: Cell, k: int, seen: Set<Cell>, stack: Seq<Cell>) -> (
    Set<Cell>,
    Seq<Cell>,
)
    decreases 8 - k,
{
    if k >= 8 {
        (seen, stack)
    } else {
        let nb = neighbor_at(p, k, mask.len() as int, mask_cols(mask));
        if nb is Some && corroded(mask, nb->0) && !seen.contains(nb->0) {
            push_neighbors(mask, p, k + 1, seen.insert(nb->0), stack.push(nb->0))
        } else {
            push_neighbors(mask, p, k + 1, seen, stack)
        }
    }
}

/// The cells a depth-first search takes off its stack, in order, for at most
/// `steps` steps: each step takes the top cell and pushes its unseen corroded
/// neighbours.
pub open spec fn search_from(mask: Seq<Vec<bool>>, seen: Set<Cell>, stack: Seq<Cell>, steps: nat) -> Seq<Cell>
    decreases steps,
{
    if steps == 0 || stack.len() == 0 {
        Seq::empty()
    } else {
        let next = push_neighbors(mask, stack.last(), 0, seen, stack.drop_last());
        seq![stack.last()] + search_from(mask, next.0, next.1, (steps - 1) as nat)
    }
}

/// The cells of the cluster of `seed` in the order in which a depth-first search
/// started at `seed` takes them; the search takes one cell per step, so it ends
/// well within the bound of one step per grid cell.
pub open spec fn search_order(mask: Seq<Vec<bool>>, seed: Cell) -> Seq<Cell> {
    search_from(mask, set![seed], seq![seed], (mask.len() * mask_cols(mask)) as nat)
}

/// Cells marked before the search, and closed under adjacency, do not change the
/// step at a corroded cell outside them, but for being marked.
proof fn lemma_push_neighbors_indep(
    mask: Seq<Vec<bool>>,
    p: Cell,
    k: int,
    v0: Set<Cell>,
    m: Set<Cell>,
    s: Seq<Cell>,
)
    requires
        0 <= k <= 8,
        mask.len() <= usize::MAX,
        mask_cols(mask) <= usize::MAX,
        corroded(mask, p),
        !v0.contains(p),
        closed_under_adjacency(mask, v0),
    ensures
        push_neighbors(mask, p, k, v0.union(m), s) == (
            v0.union(push_neighbors(mask, p, k, m, s).0),
            push_neighbors(mask, p, k, m, s).1,
        ),
    decreases 8 - k,
{
    if k < 8 {
        let rows = mask.len() as int;
        let cols = mask_cols(mask);
        let nb = neighbor_at(p, k, rows, cols);
        if nb is Some && corroded(mask, nb->0) {
            let q = nb->0;
            lemma_neighbor_is_adjacent(p, k, rows, cols);
            if v0.contains(q) {
                assert(adjacent(q, p));
                assert(v0.contains(p));
            }
            if !m.contains(q) {
                assert(v0.union(m).insert(q) =~= v0.union(m.insert(q)));
                lemma_push_neighbors_indep(mask, p, k + 1, v0, m.insert(q), s.push(q));
            } else {
                lemma_push_neighbors_indep(mask, p, k + 1, v0, m, s);
            }
        } else {
            lemma_push_neighbors_indep(mask, p, k + 1, v0, m, s);
        }
    }
}

/// A search step keeps the stack it was given and pushes only corroded
/// neighbours of `p`.
proof fn lemma_push_neighbors_stack(mask: Seq<Vec<bool>>, p: Cell, k: int, m: Set<Cell>, s: Seq<Cell>)
    requires
        0 <= k <= 8,
        mask.len() <= usize::MAX,
        mask_cols(mask) <= usize::MAX,
    ensures
        push_neighbors(mask, p, k, m, s).1.len() >= s.len(),
        forall|i: int| 0 <= i < s.len() ==> #[trigger] push_neighbors(mask, p, k, m, s).1[i] == s[i],
        forall|i: int|
            s.len() <= i < push_neighbors(mask, p, k, m, s).1.len() ==> corroded(
                mask,
                #[trigger] push_neighbors(mask, p, k, m, s).1[i],
            ) && adjacent(p, push_neighbors(mask, p, k, m, s).1[i]),
    decreases 8 - k,
{
    if k < 8 {
        let rows = mask.len() as int;
        let cols = mask_cols(mask);
        let nb = neighbor_at(p, k, rows, cols);
        if nb is Some && corroded(mask, nb->0) && !m.contains(nb->0) {
            let q = nb->0;
            lemma_neighbor_is_adjacent(p, k, rows, cols);
            lemma_push_neighbors_stack(mask, p, k + 1, m.insert(q), s.push(q));
            let r = push_neighbors(mask, p, k + 1, m.insert(q), s.push(q)).1;
            assert forall|i: int| 0 <= i < s.len() implies #[trigger] r[i] == s[i] by {
                assert(r[i] == s.push(q)[i]);
            }
            assert forall|i: int| s.len() <= i < r.len() implies corroded(mask, #[trigger] r[i]) && adjacent(
                p,
                r[i],
            ) by {
                if i == s.len() {
                    assert(r[i] == s.push(q)[i]);
                }
            }
        } else {
            lemma_push_neighbors_stack(mask, p, k + 1, m, s);
        }
    }
}

/// Cells marked before the search, and closed under adjacency, do not change the
/// order in which a search from cells outside them proceeds.
proof fn lemma_search_from_indep(mask: Seq<Vec<bool>>, v0: Set<Cell>, m: Set<Cell>, s: Seq<Cell>, steps: nat)
    requires
        mask.len() <= usize::MAX,
        mask_cols(mask) <= usize::MAX,
        closed_under_adjacency(mask, v0),
        forall|i: int| 0 <= i < s.len() ==> corroded(mask, #[trigger] s[i]) && !v0.contains(s[i]),
    ensures
        search_from(mask, v0.union(m), s, steps) == search_from(mask, m, s, steps),
    decreases steps,
{
    if steps > 0 && s.len() > 0 {
        let p = s.last();
        let rest = s.drop_last();
        assert(corroded(mask, s[s.len() - 1]));
        lemma_push_neighbors_indep(mask, p, 0, v0, m, rest);
        lemma_push_neighbors_stack(mask, p, 0, m, rest);
        let next = push_neighbors(mask, p, 0, m, rest);
        assert forall|i: int| 0 <= i < next.1.len() implies corroded(mask, #[trigger] next.1[i])
            && !v0.contains(next.1[i]) by {
            if i < rest.len() {
                assert(next.1[i] == rest[i]);
                assert(rest[i] == s[i]);
            } else {
                let c = next.1[i];
                if v0.contains(c) {
                    assert(adjacent(c, p));
                    assert(v0.contains(p));
                }
            }
        }
        lemma_search_from_indep(mask, v0, next.0, next.1, (steps - 1) as nat);
    }
}

/// Moves `x` by `code - 1` (so `code` 0, 1, 2 mean -1, 0, +1) when the result stays below `limit`.
fn shift(x: usize, code: u8, limit: usize) -> (r: Option<usize>)
    requires
        code < 3,
    ensures
        ({
            let y = x + code - 1;
            r == if 0 <= y < limit { Some(y as usize) } else { None::<usize> }
        }),
{
    if code == 0 {
        if x == 0 || x - 1 >= limit {
            None
        } else {
            Some(x - 1)
        }
    } else if code == 1 {
        if x < limit {
            Some(x)
        } else {
            None
        }
    } else {
        if x < limit && x + 1 < limit {
            Some(x + 1)
        } else {
            None
        }
    }
}

/// The `k`-th neighbour of `p` inside a `rows` by `cols` grid.
fn neighbor(p: Cell, k: usize, rows: usize, cols: usize) -> (r: Option<Cell>)
    requires
        k < 8,
    ensures
        r == neighbor_at(p, k as int, rows as int, cols as int),
{
    let (ds, da): (u8, u8) = if k == 0 {
        (0, 1)
    } else if k == 1 {
        (2, 1)
    } else if k == 2 {
        (1, 0)
    } else if k == 3 {
        (1, 2)
    } else if k == 4 {
        (0, 0)
    } else if k == 5 {
        (2, 0)
    } else if k == 6 {
        (0, 2)
    } else {
        (2, 2)
    };
    match shift(p.0, ds, rows) {
        None => None,
        Some(ns) => match shift(p.1, da, cols) {
            None => None,
            Some(na) => Some((ns, na)),
        },
    }
}

/// The cells marked in a row-major `rows` by `cols` flag vector.
pub open spec fn visited_set(v: Seq<bool>, rows: int, cols: int) -> Set<Cell> {
    Set::new(|p: Cell| in_rect(rows, cols, p) && v[flat_index(cols, p)])
}


/// Marks cell `q` in the flag vector.
fn mark_visited(visited: &mut Vec<bool>, rows: usize, cols: usize, q: Cell)
    requires
        old(visited)@.len() == rows * cols,
        rows * cols <= usize::MAX,
        in_rect(rows as int, cols as int, q),
    ensures
        final(visited)@.len() == rows * cols,
        visited_set(final(visited)@, rows as int, cols as int) == visited_set(
            old(visited)@,
            rows as int,
            cols as int,
        ).insert(q),
{
    proof {
        lemma_flat_index(rows as int, cols as int, q, q);
        assert(0 <= q.0 * cols <= q.0 * cols + q.1) by (nonlinear_arith);
    }
    let idx = q.0 * cols + q.1;
    visited.set(idx, true);
    proof {
        assert forall|r: Cell|
            #[trigger] visited_set(visited@, rows as int, cols as int).contains(r) <==> visited_set(
                old(visited)@,
                rows as int,
                cols as int,
            ).insert(q).contains(r) by {
            if in_rect(rows as int, cols as int, r) {
                lemma_flat_index(rows as int, cols as int, r, q);
            }
        }
        assert(visited_set(visited@, rows as int, cols as int) =~= visited_set(
            old(visited)@,
            rows as int,
            cols as int,
        ).insert(q));
    }
}

/// Whether cell `q` is marked in the flag vector.
fn is_visited(visited: &Vec<bool>, rows: usize, cols: usize, q: Cell) -> (b: bool)
    requires
        visited@.len() == rows * cols,
        rows * cols <= usize::MAX,
        in_rect(rows as int, cols as int, q),
    ensures
        b == visited_set(visited@, rows as int, cols as int).contains(q),
{
    proof {
        lemma_flat_index(rows as int, cols as int, q, q);
        assert(0 <= q.0 * cols <= q.0 * cols + q.1) by (nonlinear_arith);
    }
    visited[q.0 * cols + q.1]
}


/// Grows the 8-connected component of corroded cells around `start`, marking each
/// cell as it is reached; returns the cells in the order in which they are taken
/// from the work stack.
fn flood_fill(
    mask: &Vec<Vec<bool>>,
    rows: usize,
    cols: usize,
    visited: &mut Vec<bool>,
    start: Cell,
) -> (cells: Vec<Cell>)
    requires
        mask@.len() == rows,
        cols == mask_cols(mask@),
        mask_well_formed(mask@),
        rows * cols <= usize::MAX,
        old(visited)@.len() == rows * cols,
        corroded(mask@, start),
        !visited_set(old(visited)@, rows as int, cols as int).contains(start),
        closed_under_adjacency(mask@, visited_set(old(visited)@, rows as int, cols as int)),
    ensures
        final(visited)@.len() == rows * cols,
        is_component(mask@, start, cells@.to_set()),
        cells@.no_duplicates(),
        cells@.len() > 0,
        cells@[0] == start,
        cells@ == search_order(mask@, start),
        forall|c: Cell|
            #[trigger] cells@.contains(c) ==> !visited_set(
                old(visited)@,
                rows as int,
                cols as int,
            ).contains(c),
        visited_set(final(visited)@, rows as int, cols as int) == visited_set(
            old(visited)@,
            rows as int,
            cols as int,
        ).union(cells@.to_set()),
{
    let ghost v0 = visited_set(visited@, rows as int, cols as int);
    let ghost total = rows * cols;
    let mut stack: Vec<Cell> = Vec::new();
    let mut cells: Vec<Cell> = Vec::new();
    mark_visited(visited, rows, cols, start);
    stack.push(start);
    let ghost mut marked: Set<Cell> = Set::empty().insert(start);
    let ghost target = search_from(mask@, v0.insert(start), seq![start], total as nat);
    proof {
        assert(stack@ =~= seq![start]);
        assert(cells@ + search_from(mask@, visited_set(visited@, rows as int, cols as int), stack@, (total
            - cells@.len()) as nat) =~= target);
        assert forall|c: Cell| marked.contains(c) <==> (stack@.contains(c) || cells@.contains(c)) by {
            if c == start {
                assert(stack@[0] == start);
            }
        }
        assert forall|d: Set<Cell>|
            #[trigger] closed_under_adjacency(mask@, d) && d.contains(start) implies marked.subset_of(
                d,
            ) by {
            assert(marked =~= set![start]);
        }
        lemma_cells_bounded(marked, rows as nat, cols as nat);
    }
    while stack.len() > 0
        invariant
            mask@.len() == rows,
            cols == mask_cols(mask@),
            mask_well_formed(mask@),
            rows * cols <= usize::MAX,
            total == rows * cols,
            visited@.len() == rows * cols,
            corroded(mask@, start),
            !v0.contains(start),
            closed_under_adjacency(mask@, v0),
            visited_set(visited@, rows as int, cols as int) == v0.union(marked),
            marked.contains(start),
            marked.finite(),
            marked.len() <= total,
            forall|c: Cell| #[trigger] marked.contains(c) ==> !v0.contains(c) && corroded(mask@, c),
            forall|c: Cell|
                #[trigger] marked.contains(c) <==> (stack@.contains(c) || cells@.contains(c)),
            stack@.no_duplicates(),
            cells@.no_duplicates(),
            stack@.disjoint(cells@),
            cells@.len() > 0 ==> cells@[0] == start,
            cells@.len() == 0 ==> stack@ == seq![start],
            cells@.len() + stack@.len() == marked.len(),
            target == search_from(mask@, v0.insert(start), seq![start], total as nat),
            cells@ + search_from(
                mask@,
                visited_set(visited@, rows as int, cols as int),
                stack@,
                (total - cells@.len()) as nat,
            ) == target,
            forall|p: Cell, q: Cell|
                #![trigger cells@.contains(p), adjacent(p, q)]
                cells@.contains(p) && adjacent(p, q) && corroded(mask@, q) ==> visited_set(
                    visited@,
                    rows as int,
                    cols as int,
                ).contains(q),
            forall|d: Set<Cell>|
                #[trigger] closed_under_adjacency(mask@, d) && d.contains(start) ==> marked.subset_of(
                    d,
                ),
        decreases 2 * (total - marked.len()) + stack.len(),
    {
        let ghost measure = 2 * (total - marked.len()) + stack.len();
        let ghost old_stack = stack@;
        let ghost seen_p = visited_set(visited@, rows as int, cols as int);
        let ghost steps: nat = (total - cells@.len()) as nat;
        let p = stack.pop().unwrap();
        let ghost stack_p = stack@;
        let ghost next = push_neighbors(mask@, p, 0, seen_p, stack_p);
        proof {
            assert(old_stack == stack@.push(p));
            assert(stack_p =~= old_stack.drop_last());
            assert(old_stack.last() == p);
            assert(steps > 0);
            assert(search_from(mask@, seen_p, old_stack, steps) == seq![p] + search_from(
                mask@,
                next.0,
                next.1,
                (steps - 1) as nat,
            ));
            assert(old_stack[old_stack.len() - 1] == p);
            assert(!stack@.contains(p)) by {
                if stack@.contains(p) {
                    let i = choose|i: int| 0 <= i < stack@.len() && stack@[i] == p;
                    assert(old_stack[i] == old_stack[old_stack.len() - 1]);
                }
            }
            assert(!cells@.contains(p)) by {
                if cells@.contains(p) {
                    let j = choose|j: int| 0 <= j < cells@.len() && cells@[j] == p;
                    assert(old_stack[old_stack.len() - 1] == cells@[j]);
                }
            }
            assert(marked.contains(p)) by {
                assert(old_stack.contains(p));
            }
            assert forall|c: Cell| #[trigger] stack@.contains(c) implies old_stack.contains(c) by {
                let i = choose|i: int| 0 <= i < stack@.len() && stack@[i] == c;
                assert(old_stack[i] == c);
            }
            assert forall|c: Cell|
                marked.contains(c) <==> (stack@.contains(c) || cells@.contains(c) || c == p) by {
                if old_stack.contains(c) && c != p {
                    let i = choose|i: int| 0 <= i < old_stack.len() && old_stack[i] == c;
                    assert(stack@[i] == c);
                }
            }
        }
        let mut k: usize = 0;
        while k < 8
            invariant
                mask@.len() == rows,
                cols == mask_cols(mask@),
                mask_well_formed(mask@),
                rows * cols <= usize::MAX,
                total == rows * cols,
                visited@.len() == rows * cols,
                0 <= k <= 8,
                corroded(mask@, start),
                !v0.contains(start),
                visited_set(visited@, rows as int, cols as int) == v0.union(marked),
                marked.contains(start),
                marked.contains(p),
                marked.finite(),
                marked.len() <= total,
                2 * (total - marked.len()) + stack.len() < measure,
                forall|c: Cell| #[trigger] marked.contains(c) ==> !v0.contains(c) && corroded(mask@, c),
                forall|c: Cell|
                    #[trigger] marked.contains(c) <==> (stack@.contains(c) || cells@.contains(c) || c
                        == p),
                !stack@.contains(p),
                !cells@.contains(p),
                stack@.no_duplicates(),
                cells@.no_duplicates(),
                stack@.disjoint(cells@),
                cells@.len() > 0 ==> cells@[0] == start,
                cells@.len() == 0 ==> p == start,
                cells@.len() + stack@.len() + 1 == marked.len(),
                steps == total - cells@.len(),
                steps > 0,
                target == search_from(mask@, v0.insert(start), seq![start], total as nat),
                next == push_neighbors(mask@, p, 0, seen_p, stack_p),
                push_neighbors(mask@, p, k as int, visited_set(visited@, rows as int, cols as int), stack@)
                    == next,
                cells@ + (seq![p] + search_from(mask@, next.0, next.1, (steps - 1) as nat)) == target,
                forall|p2: Cell, q: Cell|
                    #![trigger cells@.contains(p2), adjacent(p2, q)]
                    cells@.contains(p2) && adjacent(p2, q) && corroded(mask@, q) ==> visited_set(
                        visited@,
                        rows as int,
                        cols as int,
                    ).contains(q),
                forall|j: int|
                    0 <= j < k ==> match #[trigger] neighbor_at(p, j, rows as int, cols as int) {
                        Some(q) => corroded(mask@, q) ==> visited_set(
                            visited@,
                            rows as int,
                            cols as int,
                        ).contains(q),
                        None => true,
                    },
                forall|d: Set<Cell>|
                    #[trigger] closed_under_adjacency(mask@, d) && d.contains(start)
                        ==> marked.subset_of(d),
            decreases 8 - k,
        {
            let ghost vis_k = visited_set(visited@, rows as int, cols as int);
            let ghost stack_k = stack@;
            let nb = neighbor(p, k, rows, cols);
            if let Some(q) = nb {
                proof {
                    lemma_neighbor_is_adjacent(p, k as int, rows as int, cols as int);
                    assert(mask@[q.0 as int].len() >= mask_cols(mask@));
                }
                if !is_visited(visited, rows, cols, q) && mask[q.0][q.1] {
                    let ghost old_marked = marked;
                    let ghost old_stack2 = stack@;
                    mark_visited(visited, rows, cols, q);
                    stack.push(q);
                    proof {
                        marked = marked.insert(q);
                        assert(!old_marked.contains(q));
                        assert(visited_set(visited@, rows as int, cols as int) =~= v0.union(marked));
                        lemma_cells_bounded(marked, rows as nat, cols as nat);
                        assert(stack@ == old_stack2.push(q));
                        assert forall|c: Cell| #[trigger] stack@.contains(c) implies (
                        old_stack2.contains(c) || c == q) by {
                            let i = choose|i: int| 0 <= i < stack@.len() && stack@[i] == c;
                            if i < old_stack2.len() {
                                assert(old_stack2[i] == c);
                            }
                        }
                        assert(stack@[stack@.len() - 1] == q);
                        assert forall|c: Cell|
                            marked.contains(c) <==> (stack@.contains(c) || cells@.contains(c) || c
                                == p) by {
                            if old_stack2.contains(c) {
                                let i = choose|i: int| 0 <= i < old_stack2.len() && old_stack2[i] == c;
                                assert(stack@[i] == c);
                            }
                        }
                        assert(stack@.no_duplicates()) by {
                            assert forall|i: int, j: int|
                                0 <= i < stack@.len() && 0 <= j < stack@.len() && i != j implies stack@[i]
                                != stack@[j] by {
                                if i < old_stack2.len() && j < old_stack2.len() {
                                } else if i < old_stack2.len() {
                                    assert(old_stack2.contains(stack@[i]));
                                } else if j < old_stack2.len() {
                                    assert(old_stack2.contains(stack@[j]));
                                }
                            }
                        }
                        assert(stack@.disjoint(cells@)) by {
                            assert forall|i: int, j: int|
                                0 <= i < stack@.len() && 0 <= j < cells@.len() implies stack@[i]
                                != cells@[j] by {
                                if i == old_stack2.len() {
                                    assert(cells@.contains(cells@[j]));
                                }
                            }
                        }
                        assert forall|d: Set<Cell>|
                            #[trigger] closed_under_adjacency(mask@, d) && d.contains(start)
                                implies marked.subset_of(d) by {
                            assert(old_marked.subset_of(d));
                            assert(d.contains(p));
                            assert(adjacent(p, q));
                            assert(d.contains(q));
                        }
                    }
                }
            }
            proof {
                assert(push_neighbors(mask@, p, k as int, vis_k, stack_k) == push_neighbors(
                    mask@,
                    p,
                    k + 1,
                    visited_set(visited@, rows as int, cols as int),
                    stack@,
                ));
            }
            k = k + 1;
        }
        let ghost old_cells = cells@;
        cells.push(p);
        proof {
            assert(cells@ == old_cells.push(p));
            assert forall|c: Cell| #[trigger] cells@.contains(c) <==> (old_cells.contains(c) || c == p) by {
                if cells@.contains(c) {
                    let i = choose|i: int| 0 <= i < cells@.len() && cells@[i] == c;
                    if i < old_cells.len() {
                        assert(old_cells[i] == c);
                    }
                }
                if old_cells.contains(c) {
                    let i = choose|i: int| 0 <= i < old_cells.len() && old_cells[i] == c;
                    assert(cells@[i] == c);
                }
                if c == p {
                    assert(cells@[cells@.len() - 1] == p);
                }
            }
            assert(cells@.no_duplicates()) by {
                assert forall|i: int, j: int|
                    0 <= i < cells@.len() && 0 <= j < cells@.len() && i != j implies cells@[i]
                    != cells@[j] by {
                    if i < old_cells.len() && j < old_cells.len() {
                    } else if i < old_cells.len() {
                        assert(old_cells.contains(cells@[i]));
                    } else if j < old_cells.len() {
                        assert(old_cells.contains(cells@[j]));
                    }
                }
            }
            assert(stack@.disjoint(cells@)) by {
                assert forall|i: int, j: int|
                    0 <= i < stack@.len() && 0 <= j < cells@.len() implies stack@[i] != cells@[j] by {
                    if j == old_cells.len() {
                        assert(stack@.contains(stack@[i]));
                    } else {
                        assert(old_cells[j] == cells@[j]);
                    }
                }
            }
            if old_cells.len() == 0 {
                assert(cells@[0] == start);
            } else {
                assert(cells@[0] == old_cells[0]);
            }
            assert forall|p2: Cell, q: Cell|
                #![trigger cells@.contains(p2), adjacent(p2, q)]
                cells@.contains(p2) && adjacent(p2, q) && corroded(mask@, q) implies visited_set(
                    visited@,
                    rows as int,
                    cols as int,
                ).contains(q) by {
                if p2 == p {
                    lemma_adjacent_is_neighbor(p, q, rows as int, cols as int);
                    let j = offset_index(q.0 - p.0, q.1 - p.1);
                    assert(neighbor_at(p, j, rows as int, cols as int) == Some(q));
                } else {
                    assert(old_cells.contains(p2));
                }
            }
            assert forall|c: Cell|
                #[trigger] marked.contains(c) <==> (stack@.contains(c) || cells@.contains(c)) by {
            }
            let vis = visited_set(visited@, rows as int, cols as int);
            assert(push_neighbors(mask@, p, 8, vis, stack@) == (vis, stack@));
            assert(old_cells + (seq![p] + search_from(mask@, next.0, next.1, (steps - 1) as nat)) =~= cells@
                + search_from(mask@, vis, stack@, (total - cells@.len()) as nat));
        }
    }
    proof {
        assert(cells@ =~= target);
        assert(v0.union(set![start]) =~= v0.insert(start));
        assert(seq![start][0] == start);
        lemma_search_from_indep(mask@, v0, set![start], seq![start], total as nat);
        assert(marked =~= cells@.to_set()) by {
            assert forall|c: Cell| marked.contains(c) <==> cells@.to_set().contains(c) by {
                if stack@.contains(c) {
                    let i = choose|i: int| 0 <= i < stack@.len() && stack@[i] == c;
                }
            }
        }
        assert forall|p: Cell, q: Cell|
            #![trigger cells@.to_set().contains(p), adjacent(p, q)]
            cells@.to_set().contains(p) && corroded(mask@, p) && adjacent(p, q) && corroded(mask@, q)
                implies cells@.to_set().contains(q) by {
            assert(cells@.contains(p));
            assert(visited_set(visited@, rows as int, cols as int).contains(q));
            if v0.contains(q) {
                assert(adjacent(q, p));
                assert(v0.contains(p));
            }
        }
        assert(cells@.len() > 0) by {
            assert(cells@.contains(start));
        }
        assert forall|c: Cell| #[trigger] cells@.contains(c) implies !v0.contains(c) by {
            assert(marked.contains(c));
        }
    }
    cells
}


/// `p` comes before `q` when the grid is read sensor by sensor, axial position by axial position.
pub open spec fn row_major_before(p: Cell, q: Cell) -> bool {
    p.0 < q.0 || (p.0 == q.0 && p.1 < q.1)
}

/// The extent of a non-empty list of cells: least and greatest sensor and axial index.
pub open spec fn is_extent(cells: Seq<Cell>, min_s: usize, max_s: usize, min_a: usize, max_a: usize) -> bool {
    &&& forall|i: int|
        0 <= i < cells.len() ==> min_s <= #[trigger] cells[i].0 <= max_s && min_a <= cells[i].1 <= max_a
    &&& exists|i: int| 0 <= i < cells.len() && #[trigger] cells[i].0 == min_s
    &&& exists|i: int| 0 <= i < cells.len() && #[trigger] cells[i].0 == max_s
    &&& exists|i: int| 0 <= i < cells.len() && #[trigger] cells[i].1 == min_a
    &&& exists|i: int| 0 <= i < cells.len() && #[trigger] cells[i].1 == max_a
}

/// One cluster of corroded cells: the cells in the order in which the search
/// took them, and the sensor and axial extent they span.
pub struct ClusterCells {
    pub cells: Vec<Cell>,
    pub min_sensor: usize,
    pub max_sensor: usize,
    pub min_axial: usize,
    pub max_axial: usize,
}

impl ClusterCells {
    /// The cluster is a whole component of the mask, listed in the order in which a
    /// depth-first search from its first cell in row-major order takes its cells,
    /// with its extent.
    pub open spec fn is_cluster_of(&self, mask: Seq<Vec<bool>>) -> bool {
        &&& self.cells@.len() > 0
        &&& self.cells@ == search_order(mask, self.cells@[0])
        &&& self.cells@.no_duplicates()
        &&& is_component(mask, self.cells@[0], self.cells@.to_set())
        &&& forall|c: Cell|
            #[trigger] self.cells@.contains(c) ==> c == self.cells@[0] || row_major_before(
                self.cells@[0],
                c,
            )
        &&& is_extent(self.cells@, self.min_sensor, self.max_sensor, self.min_axial, self.max_axial)
    }

    /// The first cell of the cluster in row-major order.
    pub open spec fn seed(&self) -> Cell {
        self.cells@[0]
    }
}

/// Least and greatest sensor and axial index of a non-empty list of cells.
pub fn cell_extent(cells: &Vec<Cell>) -> (r: (usize, usize, usize, usize))
    requires
        cells@.len() > 0,
    ensures
        is_extent(cells@, r.0, r.1, r.2, r.3),
{
    let mut min_s = cells[0].0;
    let mut max_s = cells[0].0;
    let mut min_a = cells[0].1;
    let mut max_a = cells[0].1;
    let mut i: usize = 1;
    while i < cells.len()
        invariant
            1 <= i <= cells@.len(),
            forall|j: int|
                0 <= j < i ==> min_s <= #[trigger] cells@[j].0 <= max_s && min_a <= cells@[j].1 <= max_a,
            exists|j: int| 0 <= j < i && #[trigger] cells@[j].0 == min_s,
            exists|j: int| 0 <= j < i && #[trigger] cells@[j].0 == max_s,
            exists|j: int| 0 <= j < i && #[trigger] cells@[j].1 == min_a,
            exists|j: int| 0 <= j < i && #[trigger] cells@[j].1 == max_a,
        decreases cells@.len() - i,
    {
        let c = cells[i];
        if c.0 < min_s {
            min_s = c.0;
        }
        if c.0 > max_s {
            max_s = c.0;
        }
        if c.1 < min_a {
            min_a = c.1;
        }
        if c.1 > max_a {
            max_a = c.1;
        }
        proof {
            assert(cells@[i as int] == c);
        }
        i = i + 1;
    }
    (min_s, max_s, min_a, max_a)
}

/// Finds every 8-connected cluster of corroded cells in `mask` (indexed
/// `[sensor][axial]`, with as many axial columns as the first row). Clusters come
/// in the row-major order of their first cells; each is listed from that cell in
/// the order in which a depth-first search reaches its cells.
pub fn find_clusters(mask: &Vec<Vec<bool>>) -> (clusters: Vec<ClusterCells>)
    requires
        mask_well_formed(mask@),
        mask@.len() * mask_cols(mask@) <= usize::MAX,
    ensures
        forall|i: int| 0 <= i < clusters@.len() ==> #[trigger] clusters@[i].is_cluster_of(mask@),
        forall|i: int, j: int|
            0 <= i < j < clusters@.len() ==> row_major_before(
                #[trigger] clusters@[i].seed(),
                #[trigger] clusters@[j].seed(),
            ),
        forall|i: int, j: int, c: Cell|
            0 <= i < clusters@.len() && 0 <= j < clusters@.len() && i != j
                && #[trigger] clusters@[i].cells@.contains(c) ==> !(#[trigger] clusters@[j].cells@.contains(c)),
        forall|c: Cell|
            #[trigger] corroded(mask@, c) ==> exists|i: int|
                0 <= i < clusters@.len() && #[trigger] clusters@[i].cells@.contains(c),
{
    let rows = mask.len();
    let cols = if rows == 0 {
        0
    } else {
        mask[0].len()
    };
    let total = rows * cols;
    let mut visited: Vec<bool> = vec![false; total];
    let mut clusters: Vec<ClusterCells> = Vec::new();
    proof {
        assert(visited_set(visited@, rows as int, cols as int) =~= Set::empty()) by {
            assert forall|p: Cell| !visited_set(visited@, rows as int, cols as int).contains(p) by {
                if in_rect(rows as int, cols as int, p) {
                    lemma_flat_index(rows as int, cols as int, p, p);
                    assert(!visited@[flat_index(cols as int, p)]);
                }
            }
        }
    }
    let mut s: usize = 0;
    while s < rows
        invariant
            mask@.len() == rows,
            cols == mask_cols(mask@),
            mask_well_formed(mask@),
            rows * cols <= usize::MAX,
            s <= rows,
            visited@.len() == rows * cols,
            closed_under_adjacency(mask@, visited_set(visited@, rows as int, cols as int)),
            forall|p: Cell|
                #[trigger] visited_set(visited@, rows as int, cols as int).contains(p) <==> exists|i: int|
                    0 <= i < clusters@.len() && #[trigger] clusters@[i].cells@.contains(p),
            forall|p: Cell|
                corroded(mask@, p) && p.0 < s ==> #[trigger] visited_set(
                    visited@,
                    rows as int,
                    cols as int,
                ).contains(p),
            forall|i: int| 0 <= i < clusters@.len() ==> #[trigger] clusters@[i].is_cluster_of(mask@),
            forall|i: int| 0 <= i < clusters@.len() ==> (#[trigger] clusters@[i].seed()).0 < s,
            forall|i: int, j: int|
                0 <= i < j < clusters@.len() ==> row_major_before(
                    #[trigger] clusters@[i].seed(),
                    #[trigger] clusters@[j].seed(),
                ),
            forall|i: int, j: int, c: Cell|
                0 <= i < clusters@.len() && 0 <= j < clusters@.len() && i != j
                    && #[trigger] clusters@[i].cells@.contains(c) ==> !(
                #[trigger] clusters@[j].cells@.contains(c)),
        decreases rows - s,
    {
        proof {
            assert(mask@[s as int].len() >= mask_cols(mask@));
        }
        let mut a: usize = 0;
        while a < cols
            invariant
                mask@.len() == rows,
                cols == mask_cols(mask@),
                mask_well_formed(mask@),
                rows * cols <= usize::MAX,
                s < rows,
                a <= cols,
                mask@[s as int].len() >= cols,
                visited@.len() == rows * cols,
                closed_under_adjacency(mask@, visited_set(visited@, rows as int, cols as int)),
                forall|p: Cell|
                    #[trigger] visited_set(visited@, rows as int, cols as int).contains(p)
                        <==> exists|i: int|
                        0 <= i < clusters@.len() && #[trigger] clusters@[i].cells@.contains(p),
                forall|p: Cell|
                    corroded(mask@, p) && row_major_before(p, (s, a)) ==> #[trigger] visited_set(
                        visited@,
                        rows as int,
                        cols as int,
                    ).contains(p),
                forall|i: int| 0 <= i < clusters@.len() ==> #[trigger] clusters@[i].is_cluster_of(mask@),
                forall|i: int|
                    0 <= i < clusters@.len() ==> row_major_before(#[trigger] clusters@[i].seed(), (s, a)),
                forall|i: int, j: int|
                    0 <= i < j < clusters@.len() ==> row_major_before(
                        #[trigger] clusters@[i].seed(),
                        #[trigger] clusters@[j].seed(),
                    ),
                forall|i: int, j: int, c: Cell|
                    0 <= i < clusters@.len() && 0 <= j < clusters@.len() && i != j
                        && #[trigger] clusters@[i].cells@.contains(c) ==> !(
                    #[trigger] clusters@[j].cells@.contains(c)),
            decreases cols - a,
        {
            let here: Cell = (s, a);
            if !is_visited(&visited, rows, cols, here) && mask[s][a] {
                let ghost v_before = visited_set(visited@, rows as int, cols as int);
                let ghost old_clusters = clusters@;
                let cells = flood_fill(mask, rows, cols, &mut visited, here);
                let (min_s, max_s, min_a, max_a) = cell_extent(&cells);
                let ghost g = cells@.to_set();
                let cluster = ClusterCells {
                    cells,
                    min_sensor: min_s,
                    max_sensor: max_s,
                    min_axial: min_a,
                    max_axial: max_a,
                };
                clusters.push(cluster);
                proof {
                    let n = old_clusters.len();
                    assert(clusters@ == old_clusters.push(cluster));
                    assert(clusters@[n as int] == cluster);
                    assert forall|c: Cell|
                        #[trigger] cluster.cells@.contains(c) implies c == here || row_major_before(
                            here,
                            c,
                        ) by {
                        assert(g.contains(c));
                        assert(corroded(mask@, c));
                        if row_major_before(c, here) {
                            assert(v_before.contains(c));
                        }
                    }
                    assert(clusters@[n as int].is_cluster_of(mask@));
                    assert forall|i: int| 0 <= i < clusters@.len() implies #[trigger] clusters@[i].is_cluster_of(
                        mask@,
                    ) by {
                        if i < n {
                            assert(clusters@[i] == old_clusters[i]);
                        }
                    }
                    assert forall|p: Cell|
                        #[trigger] visited_set(visited@, rows as int, cols as int).contains(p)
                            <==> exists|i: int|
                            0 <= i < clusters@.len() && #[trigger] clusters@[i].cells@.contains(p) by {
                        if visited_set(visited@, rows as int, cols as int).contains(p) {
                            if v_before.contains(p) {
                                let i = choose|i: int|
                                    0 <= i < old_clusters.len() && #[trigger] old_clusters[i].cells@.contains(p);
                                assert(clusters@[i] == old_clusters[i]);
                            } else {
                                assert(g.contains(p));
                                assert(clusters@[n as int].cells@.contains(p));
                            }
                        }
                        if exists|i: int|
                            0 <= i < clusters@.len() && #[trigger] clusters@[i].cells@.contains(p) {
                            let i = choose|i: int|
                                0 <= i < clusters@.len() && #[trigger] clusters@[i].cells@.contains(p);
                            if i < n {
                                assert(clusters@[i] == old_clusters[i]);
                                assert(v_before.contains(p));
                            } else {
                                assert(g.contains(p));
                            }
                        }
                    }
                    assert forall|p: Cell, q: Cell|
                        #![trigger visited_set(visited@, rows as int, cols as int).contains(p), adjacent(p, q)]
                        visited_set(visited@, rows as int, cols as int).contains(p) && corroded(mask@, p)
                            && adjacent(p, q) && corroded(mask@, q) implies visited_set(
                            visited@,
                            rows as int,
                            cols as int,
                        ).contains(q) by {
                        if v_before.contains(p) {
                            assert(v_before.contains(q));
                        } else {
                            assert(g.contains(p));
                            assert(g.contains(q));
                        }
                    }
                    assert forall|i: int, j: int, c: Cell|
                        0 <= i < clusters@.len() && 0 <= j < clusters@.len() && i != j
                            && #[trigger] clusters@[i].cells@.contains(c) implies !(
                        #[trigger] clusters@[j].cells@.contains(c)) by {
                        if i < n && j < n {
                            assert(clusters@[i] == old_clusters[i]);
                            assert(clusters@[j] == old_clusters[j]);
                        } else if i < n {
                            assert(clusters@[i] == old_clusters[i]);
                            assert(v_before.contains(c));
                        } else {
                            assert(clusters@[j] == old_clusters[j]);
                            if clusters@[j].cells@.contains(c) {
                                assert(v_before.contains(c));
                            }
                        }
                    }
                    assert forall|i: int, j: int|
                        0 <= i < j < clusters@.len() implies row_major_before(
                            #[trigger] clusters@[i].seed(),
                            #[trigger] clusters@[j].seed(),
                        ) by {
                        assert(clusters@[i] == old_clusters[i]);
                        if j < n {
                            assert(clusters@[j] == old_clusters[j]);
                        }
                    }
                    assert forall|i: int|
                        0 <= i < clusters@.len() implies row_major_before(
                        #[trigger] clusters@[i].seed(),
                        (s, (a + 1) as usize),
                    ) by {
                        if i < n {
                            assert(clusters@[i] == old_clusters[i]);
                        }
                    }
                }
            }
            proof {
                assert forall|p: Cell|
                    corroded(mask@, p) && row_major_before(p, (s, (a + 1) as usize)) implies #[trigger] visited_set(
                        visited@,
                        rows as int,
                        cols as int,
                    ).contains(p) by {
                    if p == here {
                    }
                }
            }
            a = a + 1;
        }
        s = s + 1;
    }
    proof {
        assert forall|c: Cell| #[trigger] corroded(mask@, c) implies exists|i: int|
            0 <= i < clusters@.len() && #[trigger] clusters@[i].cells@.contains(c) by {
            assert(visited_set(visited@, rows as int, cols as int).contains(c));
        }
    }
    clusters
}

} // verus!
