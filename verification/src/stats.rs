use vstd::prelude::*;
use crate::severity::DefectSeverity;

verus! {

/// How many entries of `s` equal `v`.
pub open spec fn count_of(s: Seq<DefectSeverity>, v: DefectSeverity) -> nat
    decreases s.len(),
{
    if s.len() == 0 {
        0
    } else {
        count_of(s.drop_last(), v) + if s.last() == v {
            1nat
        } else {
            0
        }
    }
}

/// Number of points of each non-normal severity.
#[derive(Debug, Clone, Copy, PartialEq, Eq, Structural)]
pub struct SeverityCounts {
    pub critical: usize,
    pub severe: usize,
    pub moderate: usize,
    pub mild: usize,
}

/// Counts the critical, severe, moderate and mild points among `severities`.
pub fn tally_severities(severities: &Vec<DefectSeverity>) -> (c: SeverityCounts)
    ensures
        c.critical == count_of(severities@, DefectSeverity::Critical),
        c.severe == count_of(severities@, DefectSeverity::Severe),
        c.moderate == count_of(severities@, DefectSeverity::Moderate),
        c.mild == count_of(severities@, DefectSeverity::Mild),
{
    let mut c = SeverityCounts { critical: 0, severe: 0, moderate: 0, mild: 0 };
    let mut i: usize = 0;
    while i < severities.len()
        invariant
            i <= severities@.len(),
            c.critical == count_of(severities@.subrange(0, i as int), DefectSeverity::Critical),
            c.severe == count_of(severities@.subrange(0, i as int), DefectSeverity::Severe),
            c.moderate == count_of(severities@.subrange(0, i as int), DefectSeverity::Moderate),
            c.mild == count_of(severities@.subrange(0, i as int), DefectSeverity::Mild),
            c.critical + c.severe + c.moderate + c.mild <= i,
        decreases severities@.len() - i,
    {
        proof {
            let next = severities@.subrange(0, i + 1);
            assert(next.drop_last() =~= severities@.subrange(0, i as int));
            assert(next.last() == severities@[i as int]);
        }
        match severities[i] {
            DefectSeverity::Critical => c.critical = c.critical + 1,
            DefectSeverity::Severe => c.severe = c.severe + 1,
            DefectSeverity::Moderate => c.moderate = c.moderate + 1,
            DefectSeverity::Mild => c.mild = c.mild + 1,
            DefectSeverity::Normal => {},
        }
        i = i + 1;
    }
    proof {
        assert(severities@.subrange(0, severities@.len() as int) =~= severities@);
    }
    c
}

/// Row `s` of the stitched map: row `s` of every segment that has one, in order.
pub open spec fn stitched_row<T>(segments: Seq<Vec<Vec<T>>>, s: int) -> Seq<T>
    decreases segments.len(),
{
    if segments.len() == 0 {
        Seq::empty()
    } else {
        stitched_row(segments.drop_last(), s) + if s < segments.last()@.len() {
            segments.last()@[s]@
        } else {
            Seq::empty()
        }
    }
}

/// Joins the per-segment maps (`segment[row][column]`) into one map along the
/// columns. The map has as many rows as the first segment; a row gathers the
/// rows of that index of every segment that has one.
pub fn stitch_rows<T: Copy>(segments: &Vec<Vec<Vec<T>>>) -> (out: Vec<Vec<T>>)
    ensures
        out@.len() == if segments@.len() == 0 {
            0
        } else {
            segments@[0]@.len()
        },
        forall|s: int| 0 <= s < out@.len() ==> (#[trigger] out@[s])@ == stitched_row(segments@, s),
{
    let mut out: Vec<Vec<T>> = Vec::new();
    if segments.len() == 0 {
        return out;
    }
    let num_rows = segments[0].len();
    let mut s: usize = 0;
    while s < num_rows
        invariant
            segments@.len() > 0,
            num_rows == segments@[0]@.len(),
            s <= num_rows,
            out@.len() == s,
            forall|r: int| 0 <= r < s ==> (#[trigger] out@[r])@ == stitched_row(segments@, r),
        decreases num_rows - s,
    {
        let mut row: Vec<T> = Vec::new();
        let mut k: usize = 0;
        while k < segments.len()
            invariant
                k <= segments@.len(),
                row@ == stitched_row(segments@.subrange(0, k as int), s as int),
            decreases segments@.len() - k,
        {
            let ghost before = row@;
            if s < segments[k].len() {
                let piece = &segments[k][s];
                let mut j: usize = 0;
                while j < piece.len()
                    invariant
                        j <= piece@.len(),
                        row@ == before + piece@.subrange(0, j as int),
                    decreases piece@.len() - j,
                {
                    row.push(piece[j]);
                    proof {
                        assert(before + piece@.subrange(0, j + 1) =~= (before + piece@.subrange(
                            0,
                            j as int,
                        )).push(piece@[j as int]));
                    }
                    j = j + 1;
                }
                proof {
                    assert(piece@.subrange(0, piece@.len() as int) =~= piece@);
                }
            }
            proof {
                let upto = segments@.subrange(0, k + 1);
                assert(upto.drop_last() =~= segments@.subrange(0, k as int));
                assert(upto.last() == segments@[k as int]);
                if !(s < segments@[k as int]@.len()) {
                    assert(row@ =~= before + Seq::<T>::empty());
                }
            }
            k = k + 1;
        }
        proof {
            assert(segments@.subrange(0, segments@.len() as int) =~= segments@);
        }
        out.push(row);
        proof {
            assert(out@[s as int] == row);
        }
        s = s + 1;
    }
    out
}

/// A `rows` by `cols` grid with every entry `v`.
pub fn filled_grid<T: Copy>(rows: usize, cols: usize, v: T) -> (g: Vec<Vec<T>>)
    ensures
        g@.len() == rows,
        forall|r: int| 0 <= r < rows ==> (#[trigger] g@[r])@ == Seq::new(cols as nat, |j: int| v),
{
    let mut g: Vec<Vec<T>> = Vec::new();
    let mut r: usize = 0;
    while r < rows
        invariant
            r <= rows,
            g@.len() == r,
            forall|i: int| 0 <= i < r ==> (#[trigger] g@[i])@ == Seq::new(cols as nat, |j: int| v),
        decreases rows - r,
    {
        let mut row: Vec<T> = Vec::new();
        let mut c: usize = 0;
        while c < cols
            invariant
                c <= cols,
                row@ == Seq::new(c as nat, |j: int| v),
            decreases cols - c,
        {
            row.push(v);
            proof {
                assert(row@ =~= Seq::new((c + 1) as nat, |j: int| v));
            }
            c = c + 1;
        }
        g.push(row);
        proof {
            assert(g@[r as int] == row);
        }
        r = r + 1;
    }
    g
}


/// Every point has exactly one severity: the counts of the five severities add up
/// to the number of points.
pub proof fn lemma_severity_counts_partition(s: Seq<DefectSeverity>)
    ensures
        count_of(s, DefectSeverity::Normal) + count_of(s, DefectSeverity::Mild) + count_of(
            s,
            DefectSeverity::Moderate,
        ) + count_of(s, DefectSeverity::Severe) + count_of(s, DefectSeverity::Critical) == s.len(),
    decreases s.len(),
{
    if s.len() > 0 {
        lemma_severity_counts_partition(s.drop_last());
    }
}

} // verus!
