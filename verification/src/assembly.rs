//! Planning an fMP4 assembly from a selection: validating that the stored
//! recordings cover the requested id range without gaps, checking the
//! open-id guard, and trimming each recording to the 90 kHz window. The
//! plan lists, per recording, the subrange the file builder must append.

use vstd::prelude::*;

use crate::segments::{spec_wf, Segments};

verus! {

/// One recording as the database reports it: its id within the stream, the
/// open epoch it was written under, and its 90 kHz duration.
#[derive(Clone, Copy, Debug, PartialEq, Eq, Structural)]
pub struct RecordingRow {
    pub id: i32,
    pub open_id: u32,
    pub duration_90k: i32,
    pub video_sample_entry_id: i32,
}

/// One entry of an assembly plan: append recording `id`, trimmed to
/// `[start_90k, end_90k)` of its own timeline.
#[derive(Clone, Copy, Debug, PartialEq, Eq, Structural)]
pub struct Append {
    pub id: i32,
    pub start_90k: i32,
    pub end_90k: i32,
}

/// Why an assembly was refused. Ids are reported as `i64` so that even a
/// gap past the largest id can be named.
#[derive(Clone, Copy, Debug, PartialEq, Eq, Structural)]
pub enum AssemblyError {
    OpenIdMismatch { id: i64, open_id: u32, requested: u32 },
    NoSuchRecording { id: i64 },
    EndBeyond { end_time: i64 },
}

impl AssemblyError {
    /// The failure category: a gap or stale open id is a missing
    /// recording; an end time past the recordings is the caller's error.
    pub fn kind(&self) -> (k: crate::types::ErrorKind)
        ensures
            k == spec_assembly_error_kind(*self),
    {
        match *self {
            AssemblyError::OpenIdMismatch { .. } => crate::types::ErrorKind::NotFound,
            AssemblyError::NoSuchRecording { .. } => crate::types::ErrorKind::NotFound,
            AssemblyError::EndBeyond { .. } => crate::types::ErrorKind::InvalidArgument,
        }
    }
}

pub open spec fn spec_assembly_error_kind(e: AssemblyError) -> crate::types::ErrorKind {
    match e {
        AssemblyError::OpenIdMismatch { .. } => crate::types::ErrorKind::NotFound,
        AssemblyError::NoSuchRecording { .. } => crate::types::ErrorKind::NotFound,
        AssemblyError::EndBeyond { .. } => crate::types::ErrorKind::InvalidArgument,
    }
}

/// Total 90 kHz duration of the first `i` rows.
pub open spec fn cum_dur(rows: Seq<RecordingRow>, i: int) -> int
    decreases i,
{
    if i <= 0 {
        0
    } else {
        cum_dur(rows, i - 1) + rows[i - 1].duration_90k
    }
}

pub open spec fn rows_nonneg(rows: Seq<RecordingRow>) -> bool {
    forall|i: int| 0 <= i < rows.len() ==> (#[trigger] rows[i]).duration_90k >= 0
}

/// The traversed offset never decreases: with non-negative durations the
/// cumulative duration is monotone in the number of rows taken.
pub proof fn lemma_cum_dur_mono(rows: Seq<RecordingRow>, i: int, j: int)
    requires
        rows_nonneg(rows),
        0 <= i <= j <= rows.len(),
    ensures
        cum_dur(rows, i) <= cum_dur(rows, j),
    decreases j - i,
{
    if i < j {
        lemma_cum_dur_mono(rows, i, j - 1);
    }
}

pub proof fn lemma_cum_dur_nonneg(rows: Seq<RecordingRow>, i: int)
    requires
        rows_nonneg(rows),
        0 <= i <= rows.len(),
    ensures
        cum_dur(rows, i) >= 0,
    decreases i,
{
    if i > 0 {
        lemma_cum_dur_nonneg(rows, i - 1);
    }
}

/// The requested end time, with "unbounded" as `i64::MAX`; the grammar
/// has no way to ask for more.
pub open spec fn spec_end_time(s: Segments) -> int {
    match s.end_time {
        Option::Some(e) => e as int,
        Option::None => i64::MAX as int,
    }
}

/// The appends the first `i` rows contribute: each row whose span
/// intersects the requested window, trimmed to it.
pub open spec fn spec_appends(s: Segments, rows: Seq<RecordingRow>, i: int) -> Seq<Append>
    decreases i,
{
    if i <= 0 {
        Seq::<Append>::empty()
    } else {
        let prev = spec_appends(s, rows, i - 1);
        let off = cum_dur(rows, i - 1);
        let d = rows[i - 1].duration_90k as int;
        let endt = spec_end_time(s);
        if s.start_time <= off + d && off < endt {
            let a_start = if s.start_time > off {
                s.start_time - off
            } else {
                0
            };
            let a_end = if d < endt - off {
                d
            } else {
                endt - off
            };
            prev.push(
                Append {
                    id: rows[i - 1].id,
                    start_90k: a_start as i32,
                    end_90k: a_end as i32,
                },
            )
        } else {
            prev
        }
    }
}

/// The first failure a traversal of the rows reports, scanning from row
/// `i`: a stale open id, then a gap in ids, and after the rows a short or
/// empty range and an end time past the recordings.
pub open spec fn spec_scan_err(s: Segments, rows: Seq<RecordingRow>, i: int) -> Option<
    AssemblyError,
>
    decreases rows.len() - i,
{
    if i < 0 {
        None
    } else if i >= rows.len() {
        if rows.len() == 0 {
            Some(AssemblyError::NoSuchRecording { id: s.ids.start as i64 })
        } else if s.ids.end != rows.last().id + 1 {
            Some(AssemblyError::NoSuchRecording { id: (s.ids.end - 1) as i64 })
        } else {
            match s.end_time {
                Option::Some(e) => if e > cum_dur(rows, rows.len() as int) {
                    Some(AssemblyError::EndBeyond { end_time: e })
                } else {
                    None
                },
                Option::None => None,
            }
        }
    } else {
        let row = rows[i];
        match spec_open_mismatch(s, row) {
            Option::Some(e) => Some(e),
            Option::None => if i == 0 && row.id != s.ids.start {
                Some(AssemblyError::NoSuchRecording { id: s.ids.start as i64 })
            } else if i > 0 && row.id != rows[i - 1].id + 1 {
                Some(AssemblyError::NoSuchRecording { id: (rows[i - 1].id + 1) as i64 })
            } else {
                spec_scan_err(s, rows, i + 1)
            },
        }
    }
}

/// A stale open id on one row, if the selection guards it.
pub open spec fn spec_open_mismatch(s: Segments, row: RecordingRow) -> Option<AssemblyError> {
    match s.open_id {
        Option::Some(o) => if row.open_id != o {
            Some(
                AssemblyError::OpenIdMismatch {
                    id: row.id as i64,
                    open_id: row.open_id,
                    requested: o,
                },
            )
        } else {
            None
        },
        Option::None => None,
    }
}

/// Contiguity: the rows are exactly the requested range `[start, end)`,
/// in ascending order and dense.
pub open spec fn rows_are_range(s: Segments, rows: Seq<RecordingRow>) -> bool {
    &&& rows.len() == s.ids.end - s.ids.start
    &&& forall|i: int| 0 <= i < rows.len() ==> (#[trigger] rows[i]).id == s.ids.start + i
}

/// An accepted scan traversed exactly the requested recordings: the ids
/// are dense over `[start, end)`, every row carries the guarded open id,
/// and a requested end time lies within the recordings.
pub proof fn lemma_scan_ok(s: Segments, rows: Seq<RecordingRow>, i: int)
    requires
        spec_wf(s),
        0 <= i <= rows.len(),
        spec_scan_err(s, rows, i) is None,
        forall|j: int| 0 <= j < i ==> (#[trigger] rows[j]).id == s.ids.start + j,
    ensures
        rows_are_range(s, rows),
        s.open_id matches Some(o) ==> forall|j: int|
            i <= j < rows.len() ==> (#[trigger] rows[j]).open_id == o,
        s.end_time matches Some(e) ==> e <= cum_dur(rows, rows.len() as int),
    decreases rows.len() - i,
{
    if i < rows.len() {
        lemma_scan_ok(s, rows, i + 1);
    } else {
        assert(rows.len() > 0);
        assert(rows.last().id == s.ids.start + rows.len() - 1);
    }
}

/// The contiguity law over a whole accepted scan.
pub proof fn lemma_contiguity(s: Segments, rows: Seq<RecordingRow>)
    requires
        spec_wf(s),
        rows_nonneg(rows),
        spec_scan_err(s, rows, 0) is None,
    ensures
        rows_are_range(s, rows),
        forall|i: int, j: int| 0 <= i <= j <= rows.len() ==> cum_dur(rows, i) <= cum_dur(rows, j),
{
    lemma_scan_ok(s, rows, 0);
    assert forall|i: int, j: int| 0 <= i <= j <= rows.len() implies cum_dur(rows, i) <= cum_dur(
        rows,
        j,
    ) by {
        lemma_cum_dur_mono(rows, i, j);
    }
}

/// Validates the rows against the selection and computes the appends
/// that drive the file builder.
pub fn build_view_plan(s: &Segments, rows: &Vec<RecordingRow>) -> (r: Result<
    Vec<Append>,
    AssemblyError,
>)
    requires
        spec_wf(*s),
        rows_nonneg(rows@),
    ensures
        match r {
            Ok(plan) => spec_scan_err(*s, rows@, 0) is None && rows_are_range(*s, rows@)
                && plan@ == spec_appends(*s, rows@, rows@.len() as int) && (
            s.end_time matches Some(e) ==> e <= cum_dur(rows@, rows@.len() as int)),
            Err(e) => spec_scan_err(*s, rows@, 0) == Some(e),
        },
{
    let mut plan: Vec<Append> = Vec::new();
    let end_time: i64 = match s.end_time {
        Option::Some(e) => e,
        Option::None => i64::MAX,
    };
    let mut cur_off: i64 = 0;
    let mut i: usize = 0;
    while i < rows.len()
        invariant
            spec_wf(*s),
            rows_nonneg(rows@),
            0 <= i <= rows@.len(),
            end_time == spec_end_time(*s),
            spec_scan_err(*s, rows@, 0) == spec_scan_err(*s, rows@, i as int),
            cur_off == cum_dur(rows@, i as int),
            plan@ == spec_appends(*s, rows@, i as int),
            forall|j: int| 0 <= j < i ==> (#[trigger] rows@[j]).id == s.ids.start + j,
            i as int <= 0x8000_0000,
            0 <= cur_off <= (i as int) * 0x7fff_ffff,
        decreases rows@.len() - i,
    {
        let row = rows[i];
        match s.open_id {
            Option::Some(o) => {
                if row.open_id != o {
                    return Err(
                        AssemblyError::OpenIdMismatch {
                            id: row.id as i64,
                            open_id: row.open_id,
                            requested: o,
                        },
                    );
                }
            },
            Option::None => {},
        }
        if i == 0 {
            if row.id != s.ids.start {
                return Err(AssemblyError::NoSuchRecording { id: s.ids.start as i64 });
            }
        } else {
            let prev_id = rows[i - 1].id;
            if prev_id == i32::MAX || row.id != prev_id + 1 {
                return Err(AssemblyError::NoSuchRecording { id: prev_id as i64 + 1 });
            }
        }
        assert(rows@[i as int].id == s.ids.start + i);
        assert(i as int + 1 <= 0x8000_0000) by {
            assert(s.ids.start + i <= 0x7fff_ffff);
        }
        let d = row.duration_90k as i64;
        proof {
            assert((i as int) * 0x7fff_ffff + 0x7fff_ffff == (i as int + 1) * 0x7fff_ffff)
                by (nonlinear_arith);
            assert((i as int + 1) * 0x7fff_ffff <= 0x8000_0000i64 * 0x7fff_ffff)
                by (nonlinear_arith)
                requires
                    i as int + 1 <= 0x8000_0000,
            ;
        }
        if s.start_time <= cur_off + d && cur_off < end_time {
            let a_start = if s.start_time > cur_off {
                s.start_time - cur_off
            } else {
                0
            };
            let a_end = if d < end_time - cur_off {
                d
            } else {
                end_time - cur_off
            };
            plan.push(Append { id: row.id, start_90k: a_start as i32, end_90k: a_end as i32 });
        }
        cur_off = cur_off + d;
        i = i + 1;
    }
    if rows.len() == 0 {
        return Err(AssemblyError::NoSuchRecording { id: s.ids.start as i64 });
    }
    let last_id = rows[rows.len() - 1].id;
    if last_id == i32::MAX || s.ids.end != last_id + 1 {
        proof {
            assert(s.ids.end != rows@.last().id + 1);
        }
        return Err(AssemblyError::NoSuchRecording { id: s.ids.end as i64 - 1 });
    }
    match s.end_time {
        Option::Some(e) => {
            if e > cur_off {
                return Err(AssemblyError::EndBeyond { end_time: e });
            }
        },
        Option::None => {},
    }
    proof {
        lemma_scan_ok(*s, rows@, rows@.len() as int);
    }
    Ok(plan)
}

/// The number of fMP4 segments to reserve for a selection: the id count,
/// improved by the requested timespan when an end time is given. One
/// recording normally spans about a minute.
pub const DESIRED_RECORDING_DURATION: i64 = 5400000;

pub open spec fn spec_estimate_segments(s: Segments) -> int {
    let ids_est = s.ids.end - s.ids.start;
    match s.end_time {
        Option::Some(e) => {
            let ceil = (e - s.start_time - 1) / (DESIRED_RECORDING_DURATION as int) + 1;
            if ceil + 2 < ids_est {
                ceil + 2
            } else {
                ids_est
            }
        },
        Option::None => ids_est,
    }
}

/// Heuristic capacity reservation for the file builder.
pub fn estimate_segments(s: &Segments) -> (r: usize)
    requires
        spec_wf(*s),
    ensures
        r == spec_estimate_segments(*s),
{
    let ids_est = (s.ids.end - s.ids.start) as i64;
    let est: i64 = match s.end_time {
        Option::Some(e) => {
            let ceil = (e - s.start_time - 1) / DESIRED_RECORDING_DURATION + 1;
            if ceil + 2 < ids_est {
                ceil + 2
            } else {
                ids_est
            }
        },
        Option::None => ids_est,
    };
    est as usize
}

} // verus!
