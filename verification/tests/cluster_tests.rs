use std::collections::BTreeSet;

use mfl_inv::cluster::{cell_extent, find_clusters, ClusterCells};

fn mask_of(rows: &[&str]) -> Vec<Vec<bool>> {
    rows.iter().map(|r| r.chars().map(|c| c == '#').collect()).collect()
}

fn cell_set(c: &ClusterCells) -> BTreeSet<(usize, usize)> {
    c.cells.iter().copied().collect()
}

fn extent(c: &ClusterCells) -> (usize, usize, usize, usize) {
    (c.min_sensor, c.max_sensor, c.min_axial, c.max_axial)
}

#[test]
fn empty_masks_have_no_clusters() {
    assert!(find_clusters(&Vec::new()).is_empty());
    assert!(find_clusters(&vec![Vec::new(), Vec::new()]).is_empty());
    assert!(find_clusters(&mask_of(&["....", "...."])).is_empty());
}

#[test]
fn diagonal_neighbours_join_one_cluster() {
    let mask = mask_of(&["#..#", ".#..", "...#"]);
    let clusters = find_clusters(&mask);
    assert_eq!(clusters.len(), 3);

    assert_eq!(clusters[0].cells, vec![(0, 0), (1, 1)]);
    assert_eq!(extent(&clusters[0]), (0, 1, 0, 1));

    assert_eq!(clusters[1].cells, vec![(0, 3)]);
    assert_eq!(extent(&clusters[1]), (0, 0, 3, 3));

    assert_eq!(clusters[2].cells, vec![(2, 3)]);
    assert_eq!(extent(&clusters[2]), (2, 2, 3, 3));
}

#[test]
fn cluster_cells_follow_the_depth_first_search() {
    let clusters = find_clusters(&mask_of(&["##", "##"]));
    assert_eq!(clusters.len(), 1);
    assert_eq!(clusters[0].cells, vec![(0, 0), (1, 1), (0, 1), (1, 0)]);
    assert_eq!(extent(&clusters[0]), (0, 1, 0, 1));
}

#[test]
fn winding_cluster_is_found_whole() {
    let mask = mask_of(&[
        "#####.",
        "....#.",
        ".####.",
        ".#....",
        ".####.",
        "......",
        "#....#",
    ]);
    let clusters = find_clusters(&mask);
    assert_eq!(clusters.len(), 3);
    let snake = cell_set(&clusters[0]);
    assert_eq!(snake.len(), 5 + 1 + 4 + 1 + 4);
    assert_eq!(clusters[0].cells[0], (0, 0));
    assert_eq!(extent(&clusters[0]), (0, 4, 0, 4));
    assert_eq!(clusters[1].cells, vec![(6, 0)]);
    assert_eq!(clusters[2].cells, vec![(6, 5)]);
}

#[test]
fn clusters_partition_the_corroded_cells() {
    let mask = mask_of(&[
        "#..#..#.",
        "##.#...#",
        "...##...",
        "#......#",
        ".#.##.##",
    ]);
    let clusters = find_clusters(&mask);
    let mut seen = BTreeSet::new();
    for c in &clusters {
        for cell in &c.cells {
            assert!(mask[cell.0][cell.1]);
            assert!(seen.insert(*cell), "cell {:?} in two clusters", cell);
        }
    }
    let corroded: BTreeSet<(usize, usize)> = (0..mask.len())
        .flat_map(|s| (0..mask[0].len()).map(move |a| (s, a)))
        .filter(|&(s, a)| mask[s][a])
        .collect();
    assert_eq!(seen, corroded);
    for w in clusters.windows(2) {
        assert!(w[0].cells[0] < w[1].cells[0]);
    }
    // No cell of one cluster touches a cell of another.
    for (i, a) in clusters.iter().enumerate() {
        for b in clusters.iter().skip(i + 1) {
            for p in &a.cells {
                for q in &b.cells {
                    let ds = p.0 as isize - q.0 as isize;
                    let da = p.1 as isize - q.1 as isize;
                    assert!(ds.abs() > 1 || da.abs() > 1);
                }
            }
        }
    }
}

#[test]
fn columns_beyond_the_first_row_are_ignored() {
    let mask = vec![vec![true, false], vec![false, true, true]];
    let clusters = find_clusters(&mask);
    assert_eq!(clusters.len(), 1);
    assert_eq!(clusters[0].cells, vec![(0, 0), (1, 1)]);
}

#[test]
fn extent_of_cells() {
    assert_eq!(cell_extent(&vec![(3, 7)]), (3, 3, 7, 7));
    assert_eq!(cell_extent(&vec![(4, 2), (1, 9), (6, 5), (2, 0)]), (1, 6, 0, 9));
}

/// Depth-first search as the wall-loss assessment runs it: cells leave a stack,
/// neighbours are pushed in a fixed order.
fn search_cells(mask: &[Vec<bool>], visited: &mut [Vec<bool>], start: (usize, usize)) -> Vec<(usize, usize)> {
    let rows = mask.len() as isize;
    let cols = mask[0].len() as isize;
    let mut stack = vec![start];
    let mut out = Vec::new();
    visited[start.0][start.1] = true;
    while let Some((s, a)) = stack.pop() {
        out.push((s, a));
        let (s, a) = (s as isize, a as isize);
        for (ds, da) in [(-1, 0), (1, 0), (0, -1), (0, 1), (-1, -1), (1, -1), (-1, 1), (1, 1)] {
            let (ns, na) = (s + ds, a + da);
            if ns < 0 || na < 0 || ns >= rows || na >= cols {
                continue;
            }
            let (ns, na) = (ns as usize, na as usize);
            if !visited[ns][na] && mask[ns][na] {
                visited[ns][na] = true;
                stack.push((ns, na));
            }
        }
    }
    out
}

#[test]
fn cluster_order_matches_a_stack_search_on_varied_masks() {
    let mut state: u64 = 0x1234_5678;
    for round in 0..40 {
        let rows = 1 + round % 9;
        let cols = 1 + (round * 7) % 13;
        let mask: Vec<Vec<bool>> = (0..rows)
            .map(|_| {
                (0..cols)
                    .map(|_| {
                        state = state.wrapping_mul(6364136223846793005).wrapping_add(1442695040888963407);
                        (state >> 33) % 5 < 2
                    })
                    .collect()
            })
            .collect();
        let mut visited = vec![vec![false; cols]; rows];
        let mut expected = Vec::new();
        for s in 0..rows {
            for a in 0..cols {
                if !visited[s][a] && mask[s][a] {
                    expected.push(search_cells(&mask, &mut visited, (s, a)));
                }
            }
        }
        let found: Vec<Vec<(usize, usize)>> = find_clusters(&mask).into_iter().map(|c| c.cells).collect();
        assert_eq!(found, expected, "mask {:?}", mask);
    }
}
