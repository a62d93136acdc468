use vstd::prelude::*;
use crate::frames::{FrameLayout, frame_bytes};

verus! {

/// Samples read per chunk of a scan.
pub const CHUNK_SAMPLES: usize = 10_000;

/// Samples each chunk also reads from its neighbours on either side.
pub const OVERLAP_SAMPLES: usize = 100;

/// Size facts of an opened dump file.
#[derive(Debug, Clone, Copy)]
pub struct ScanGeometry {
    pub layout: FrameLayout,
    pub file_size: usize,
    pub total_samples: usize,
}

/// Why a block of frames cannot be read.
#[derive(Debug, Clone, Copy, PartialEq, Eq, Structural)]
pub enum SegmentError {
    /// The block ends at byte `end_byte`, past the end of a file of `file_size` bytes.
    OutOfBounds { end_byte: usize, file_size: usize },
}

/// Number of chunks a scan of `total` samples is read in.
pub open spec fn num_chunks(total: int) -> int {
    (total + CHUNK_SAMPLES - 1) / (CHUNK_SAMPLES as int)
}

/// Sample range `[start, end)` read for chunk `i`: its own samples widened by the
/// overlap on each side, clipped to the scan.
pub open spec fn chunk_range(total: int, i: int) -> (int, int) {
    let start = if i == 0 {
        0
    } else {
        i * CHUNK_SAMPLES - OVERLAP_SAMPLES
    };
    let end = (i + 1) * CHUNK_SAMPLES + OVERLAP_SAMPLES;
    (start, if end < total { end } else { total })
}

impl ScanGeometry {
    /// The file holds whole frames of a layout that fits in memory arithmetic.
    pub open spec fn wf(&self) -> bool {
        &&& 0 < frame_bytes(self.layout) <= usize::MAX
        &&& self.total_samples == self.file_size as int / frame_bytes(self.layout)
    }

    /// Geometry of a file of `file_size` bytes holding frames of `layout`; a
    /// trailing partial frame is not counted.
    pub fn new(file_size: usize, layout: FrameLayout) -> (g: ScanGeometry)
        requires
            0 < frame_bytes(layout) <= usize::MAX,
        ensures
            g.wf(),
            g.layout == layout,
            g.file_size == file_size,
            g.total_samples == file_size as int / frame_bytes(layout),
    {
        proof {
            assert(layout.num_sensors * 3 <= layout.num_sensors * 3 * layout.bytes_per_sample)
                by (nonlinear_arith)
                requires
                    layout.num_sensors * 3 * layout.bytes_per_sample > 0,
            ;
        }
        let bytes_per_frame = layout.num_sensors * 3 * layout.bytes_per_sample;
        ScanGeometry { layout, file_size, total_samples: file_size / bytes_per_frame }
    }

    /// Number of complete frames in the file.
    pub fn total_samples(&self) -> (n: usize)
        ensures
            n == self.total_samples,
    {
        self.total_samples
    }

    /// Number of sensors per frame.
    pub fn num_sensors(&self) -> (n: usize)
        ensures
            n == self.layout.num_sensors,
    {
        self.layout.num_sensors
    }

    /// Size of the file in bytes.
    pub fn file_size(&self) -> (n: usize)
        ensures
            n == self.file_size,
    {
        self.file_size
    }

    /// Bytes per frame.
    pub fn frame_bytes(&self) -> (n: usize)
        requires
            self.wf(),
        ensures
            n == frame_bytes(self.layout),
    {
        proof {
            assert(self.layout.num_sensors * 3 <= self.layout.num_sensors * 3
                * self.layout.bytes_per_sample) by (nonlinear_arith)
                requires
                    self.layout.num_sensors * 3 * self.layout.bytes_per_sample > 0,
            ;
        }
        self.layout.num_sensors * 3 * self.layout.bytes_per_sample
    }
}


impl ScanGeometry {
    /// Every counted frame lies wholly inside the file, and a file holds at most
    /// a third as many frames as bytes.
    pub proof fn lemma_total_bound(&self)
        requires
            self.wf(),
        ensures
            self.total_samples * frame_bytes(self.layout) <= self.file_size,
            self.total_samples * 3 <= self.file_size,
    {
        let f = frame_bytes(self.layout);
        let t = self.total_samples as int;
        vstd::arithmetic::div_mod::lemma_fundamental_div_mod(self.file_size as int, f);
        vstd::arithmetic::div_mod::lemma_mod_bound(self.file_size as int, f);
        assert(f * t == t * f) by (nonlinear_arith);
        assert(f >= 3) by (nonlinear_arith)
            requires
                f == self.layout.num_sensors * 3 * self.layout.bytes_per_sample,
                f > 0,
        ;
        assert(t * 3 <= t * f) by (nonlinear_arith)
            requires
                f >= 3,
                t >= 0,
        ;
    }

    /// The sample ranges the file is read in, one per chunk of
    /// `CHUNK_SAMPLES` samples, each widened by `OVERLAP_SAMPLES` on both sides
    /// and clipped to the file.
    pub fn chunk_plan(&self) -> (plan: Vec<(usize, usize)>)
        requires
            self.wf(),
        ensures
            plan@.len() == num_chunks(self.total_samples as int),
            forall|i: int|
                0 <= i < plan@.len() ==> (#[trigger] plan@[i].0 as int, plan@[i].1 as int) == chunk_range(
                    self.total_samples as int,
                    i,
                ),
    {
        proof {
            self.lemma_total_bound();
        }
        let total = self.total_samples;
        let n = (total + CHUNK_SAMPLES - 1) / CHUNK_SAMPLES;
        let mut plan: Vec<(usize, usize)> = Vec::new();
        let mut i: usize = 0;
        while i < n
            invariant
                total == self.total_samples,
                total * 3 <= usize::MAX,
                n == num_chunks(total as int),
                i <= n,
                plan@.len() == i,
                forall|j: int|
                    0 <= j < i ==> (#[trigger] plan@[j].0 as int, plan@[j].1 as int) == chunk_range(
                        total as int,
                        j,
                    ),
            decreases n - i,
        {
            proof {
                assert(i * CHUNK_SAMPLES < total + CHUNK_SAMPLES) by (nonlinear_arith)
                    requires
                        i < n,
                        n == (total + CHUNK_SAMPLES - 1) / (CHUNK_SAMPLES as int),
                ;
            }
            let start_sample = i * CHUNK_SAMPLES;
            let widened = (i + 1) * CHUNK_SAMPLES + OVERLAP_SAMPLES;
            let end_sample = if widened < total {
                widened
            } else {
                total
            };
            let actual_start = if i > 0 {
                start_sample - OVERLAP_SAMPLES
            } else {
                start_sample
            };
            plan.push((actual_start, end_sample));
            proof {
                assert(plan@[i as int] == (actual_start, end_sample));
            }
            i = i + 1;
        }
        plan
    }

    /// Byte range `[start_byte, end_byte)` of the frames `[start, end)`, or the
    /// reason it lies outside the file.
    pub fn segment_byte_range(&self, start: usize, end: usize) -> (r: Result<(usize, usize), SegmentError>)
        requires
            self.wf(),
            start <= end,
            end * frame_bytes(self.layout) <= usize::MAX,
        ensures
            end * frame_bytes(self.layout) <= self.file_size ==> r == Ok::<(usize, usize), SegmentError>(
                (
                    (start * frame_bytes(self.layout)) as usize,
                    (end * frame_bytes(self.layout)) as usize,
                ),
            ),
            end * frame_bytes(self.layout) > self.file_size ==> r == Err::<(usize, usize), SegmentError>(
                SegmentError::OutOfBounds {
                    end_byte: (end * frame_bytes(self.layout)) as usize,
                    file_size: self.file_size,
                },
            ),
    {
        let f = self.frame_bytes();
        proof {
            assert(start * f <= end * f) by (nonlinear_arith)
                requires
                    start <= end,
            ;
        }
        let start_byte = start * f;
        let end_byte = end * f;
        if end_byte > self.file_size {
            Err(SegmentError::OutOfBounds { end_byte, file_size: self.file_size })
        } else {
            Ok((start_byte, end_byte))
        }
    }

    /// Work units a chunk stands for in progress reports: one per sensor reading.
    pub fn chunk_work(&self, range: (usize, usize)) -> (w: u64)
        requires
            range.0 <= range.1,
            (range.1 - range.0) * self.layout.num_sensors <= u64::MAX,
        ensures
            w == (range.1 - range.0) * self.layout.num_sensors,
    {
        let samples = (range.1 - range.0) as u64;
        let sensors = self.layout.num_sensors as u64;
        proof {
            assert(samples * sensors == (range.1 - range.0) * self.layout.num_sensors);
        }
        samples * sensors
    }
}

/// Every sample of the scan lies in the chunk that owns it: chunk `x / CHUNK_SAMPLES`.
pub proof fn lemma_chunks_cover(total: int, x: int)
    requires
        0 <= x < total,
    ensures
        0 <= x / (CHUNK_SAMPLES as int) < num_chunks(total),
        chunk_range(total, x / (CHUNK_SAMPLES as int)).0 <= x < chunk_range(total, x / (CHUNK_SAMPLES as int)).1,
{
    let i = x / (CHUNK_SAMPLES as int);
    assert(i * 10000 <= x < i * 10000 + 10000);
}

/// Every chunk reads at least one sample and stays inside the scan.
pub proof fn lemma_chunk_in_scan(total: int, i: int)
    requires
        0 <= i < num_chunks(total),
    ensures
        0 <= chunk_range(total, i).0 < chunk_range(total, i).1 <= total,
{
    assert(i * 10000 < total) by (nonlinear_arith)
        requires
            0 <= i,
            i < (total + 9999) / 10000,
    ;
}

/// Neighbouring chunks overlap: each chunk starts before the previous one ends.
pub proof fn lemma_chunks_overlap(total: int, i: int)
    requires
        0 <= i,
        i + 1 < num_chunks(total),
    ensures
        chunk_range(total, i + 1).0 < chunk_range(total, i).1,
        chunk_range(total, i).0 < chunk_range(total, i + 1).0,
{
    assert((i + 1) * 10000 < total) by (nonlinear_arith)
        requires
            0 <= i,
            i + 1 < (total + 9999) / 10000,
    ;
}


/// Every chunk of the plan lies inside the file, so reading it never fails.
pub proof fn lemma_chunk_within_file(g: ScanGeometry, i: int)
    requires
        g.wf(),
        0 <= i < num_chunks(g.total_samples as int),
    ensures
        chunk_range(g.total_samples as int, i).1 * frame_bytes(g.layout) <= g.file_size,
{
    g.lemma_total_bound();
    lemma_chunk_in_scan(g.total_samples as int, i);
    let e = chunk_range(g.total_samples as int, i).1;
    assert(e * frame_bytes(g.layout) <= g.total_samples * frame_bytes(g.layout)) by (nonlinear_arith)
        requires
            e <= g.total_samples,
            frame_bytes(g.layout) > 0,
    ;
}

} // verus!
