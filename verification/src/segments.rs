//! The `s=` selection grammar: `START[-END][@OPEN][.[REL_START]-[REL_END]]`
//! over non-negative decimal integers. `END` is inclusive in the text and
//! becomes a half-open id range; the relative times are 90 kHz offsets.

use vstd::prelude::*;
use vstd::slice::slice_subrange;
use vstd::string::{StrSliceExecFns, StringSliceAdditionalSpecFns};
use core::ops::Range;

use crate::nums::{all_digits, dec_digits, digits_val, is_digit, format_u64, parse_u64,
    lemma_dec_digits, lemma_digits_val_bounds};

verus! {

/// A parsed selection: a half-open recording-id range, an optional open-id
/// guard, and a 90 kHz trim window.
#[derive(Debug, PartialEq, Eq)]
pub struct Segments {
    pub ids: Range<i32>,
    pub open_id: Option<u32>,
    pub start_time: i64,
    pub end_time: Option<i64>,
}

/// What `spec_parse` guarantees of every selection it accepts.
pub open spec fn spec_wf(seg: Segments) -> bool {
    &&& 0 <= seg.ids.start
    &&& seg.ids.start < seg.ids.end
    &&& 0 <= seg.start_time
    &&& (seg.end_time matches Some(e) ==> e > seg.start_time)
}

/// End of the maximal digit run starting at `from`.
pub open spec fn digit_run_end(s: Seq<u8>, from: int) -> int
    decreases s.len() - from,
{
    if from < 0 || from >= s.len() || !is_digit(s[from]) {
        from
    } else {
        digit_run_end(s, from + 1)
    }
}

pub proof fn lemma_digit_run_end(s: Seq<u8>, from: int)
    requires
        0 <= from <= s.len(),
    ensures
        from <= digit_run_end(s, from) <= s.len(),
        forall|j: int| from <= j < digit_run_end(s, from) ==> is_digit(#[trigger] s[j]),
        digit_run_end(s, from) == s.len() || !is_digit(s[digit_run_end(s, from)]),
    decreases s.len() - from,
{
    if from < s.len() && is_digit(s[from]) {
        lemma_digit_run_end(s, from + 1);
    }
}

/// A digit run bounded by a non-digit (or the end) stops exactly there.
pub proof fn lemma_digit_run_end_exact(s: Seq<u8>, from: int, to: int)
    requires
        0 <= from <= to <= s.len(),
        forall|j: int| from <= j < to ==> is_digit(#[trigger] s[j]),
        to == s.len() || !is_digit(s[to]),
    ensures
        digit_run_end(s, from) == to,
    decreases to - from,
{
    if from < to {
        lemma_digit_run_end_exact(s, from + 1, to);
    }
}

/// The selection denoted by `s`, or `Err` when `s` is outside the grammar
/// or violates a range rule.
pub open spec fn spec_parse(s: Seq<u8>) -> Result<Segments, ()> {
    let e1 = digit_run_end(s, 0);
    if e1 == 0 {
        Err(())
    } else {
        let start_v = digits_val(s.take(e1));
        if start_v > i32::MAX {
            Err(())
        } else {
            spec_parse_end_ids(s, e1, start_v)
        }
    }
}

/// Optional `-END`: `END` is inclusive, so the half-open end is `END + 1`,
/// which must itself fit an `i32`.
pub open spec fn spec_parse_end_ids(s: Seq<u8>, i: int, start_v: int) -> Result<Segments, ()> {
    if i < s.len() && s[i] == 45 {
        let e = digit_run_end(s, i + 1);
        if e == i + 1 {
            Err(())
        } else {
            let end_v = digits_val(s.subrange(i + 1, e));
            if end_v + 1 > i32::MAX {
                Err(())
            } else {
                spec_parse_open(s, e, start_v, end_v + 1)
            }
        }
    } else {
        if start_v + 1 > i32::MAX {
            Err(())
        } else {
            spec_parse_open(s, i, start_v, start_v + 1)
        }
    }
}

/// Optional `@OPEN`.
pub open spec fn spec_parse_open(s: Seq<u8>, i: int, ids_start: int, ids_end: int) -> Result<
    Segments,
    (),
> {
    if i < s.len() && s[i] == 64 {
        let e = digit_run_end(s, i + 1);
        if e == i + 1 {
            Err(())
        } else {
            let v = digits_val(s.subrange(i + 1, e));
            if v > u32::MAX {
                Err(())
            } else {
                spec_parse_ids_check(s, e, ids_start, ids_end, Some(v))
            }
        }
    } else {
        spec_parse_ids_check(s, i, ids_start, ids_end, None)
    }
}

pub open spec fn spec_parse_ids_check(
    s: Seq<u8>,
    i: int,
    ids_start: int,
    ids_end: int,
    open_v: Option<int>,
) -> Result<Segments, ()> {
    if ids_end <= ids_start {
        Err(())
    } else {
        spec_parse_times(s, i, ids_start, ids_end, open_v)
    }
}

/// Optional `.REL_START-REL_END`, both sides of the `-` optional; the rest
/// of the input must be consumed.
pub open spec fn spec_parse_times(
    s: Seq<u8>,
    i: int,
    ids_start: int,
    ids_end: int,
    open_v: Option<int>,
) -> Result<Segments, ()> {
    if i == s.len() {
        Ok(spec_make(ids_start, ids_end, open_v, 0, None))
    } else if s[i] == 46 {
        let e4 = digit_run_end(s, i + 1);
        let st = digits_val(s.subrange(i + 1, e4));
        if st > i64::MAX {
            Err(())
        } else if e4 < s.len() && s[e4] == 45 {
            let e5 = digit_run_end(s, e4 + 1);
            if e5 != s.len() {
                Err(())
            } else if e5 == e4 + 1 {
                Ok(spec_make(ids_start, ids_end, open_v, st, None))
            } else {
                let et = digits_val(s.subrange(e4 + 1, e5));
                if et > i64::MAX {
                    Err(())
                } else if et <= st {
                    Err(())
                } else {
                    Ok(spec_make(ids_start, ids_end, open_v, st, Some(et)))
                }
            }
        } else {
            Err(())
        }
    } else {
        Err(())
    }
}

pub open spec fn spec_make(
    ids_start: int,
    ids_end: int,
    open_v: Option<int>,
    st: int,
    et: Option<int>,
) -> Segments {
    Segments {
        ids: Range { start: ids_start as i32, end: ids_end as i32 },
        open_id: match open_v {
            Option::Some(o) => Some(o as u32),
            Option::None => None,
        },
        start_time: st as i64,
        end_time: match et {
            Option::Some(e) => Some(e as i64),
            Option::None => None,
        },
    }
}

/// Canonical text of a selection: ids, then the open-id guard, then the
/// trim window, each omitted when it says nothing.
pub open spec fn spec_serialize(seg: Segments) -> Seq<u8> {
    spec_ser_ids(seg) + spec_ser_open(seg) + spec_ser_times(seg)
}

pub open spec fn spec_ser_ids(seg: Segments) -> Seq<u8> {
    dec_digits(seg.ids.start as int) + if seg.ids.end - 1 > seg.ids.start {
        seq![45u8] + dec_digits(seg.ids.end - 1)
    } else {
        Seq::<u8>::empty()
    }
}

pub open spec fn spec_ser_open(seg: Segments) -> Seq<u8> {
    match seg.open_id {
        Option::Some(o) => seq![64u8] + dec_digits(o as int),
        Option::None => Seq::<u8>::empty(),
    }
}

pub open spec fn spec_ser_times(seg: Segments) -> Seq<u8> {
    if seg.start_time != 0 || seg.end_time is Some {
        seq![46u8] + dec_digits(seg.start_time as int) + seq![45u8] + (match seg.end_time {
            Option::Some(e) => dec_digits(e as int),
            Option::None => Seq::<u8>::empty(),
        })
    } else {
        Seq::<u8>::empty()
    }
}

/// End of the maximal digit run starting at `from`.
fn digit_run_end_exec(s: &[u8], from: usize) -> (r: usize)
    requires
        from <= s@.len(),
    ensures
        from <= r <= s@.len(),
        r == digit_run_end(s@, from as int),
{
    let mut i = from;
    while i < s.len()
        invariant
            from <= i <= s@.len(),
            digit_run_end(s@, from as int) == digit_run_end(s@, i as int),
        decreases s@.len() - i,
    {
        if s[i] < 48 || s[i] > 57 {
            return i;
        }
        i += 1;
    }
    i
}

/// Parses the digit run `s[from..to]`, already known to be non-empty, into
/// a value no greater than `max`.
fn parse_run(s: &[u8], from: usize, to: usize, max: u64) -> (r: Option<u64>)
    requires
        from < to <= s@.len(),
        forall|j: int| from <= j < to ==> is_digit(#[trigger] s@[j]),
    ensures
        match r {
            Some(v) => digits_val(s@.subrange(from as int, to as int)) == v && v <= max,
            None => digits_val(s@.subrange(from as int, to as int)) > max,
        },
{
    let run = slice_subrange(s, from, to);
    proof {
        assert(all_digits(run@));
        lemma_digits_val_bounds(run@);
    }
    match parse_u64(run) {
        Option::Some(v) => {
            if v > max {
                None
            } else {
                Some(v)
            }
        },
        Option::None => None,
    }
}

impl Segments {
    /// Parses a selection; `Err` exactly when `input` is outside the
    /// grammar or violates a range rule.
    pub fn parse(input: &str) -> (r: Result<Segments, ()>)
        ensures
            r == spec_parse(input.spec_bytes()),
    {
        Segments::parse_bytes(input.as_bytes())
    }

    /// `parse`, on raw bytes.
    pub fn parse_bytes(s: &[u8]) -> (r: Result<Segments, ()>)
        ensures
            r == spec_parse(s@),
    {
        let e1 = digit_run_end_exec(s, 0);
        proof {
            lemma_digit_run_end(s@, 0);
        }
        if e1 == 0 {
            return Err(());
        }
        proof {
            assert(s@.subrange(0, e1 as int) =~= s@.take(e1 as int));
        }
        let start_v = match parse_run(s, 0, e1, 2147483647) {
            Option::Some(v) => v,
            Option::None => {
                return Err(());
            },
        };
        let ids_start = start_v as i32;

        // Optional -END (inclusive); the half-open end must fit an i32.
        let mut i = e1;
        let ids_end: i32;
        if i < s.len() && s[i] == 45 {
            let e2 = digit_run_end_exec(s, i + 1);
            proof {
                lemma_digit_run_end(s@, i + 1);
            }
            if e2 == i + 1 {
                return Err(());
            }
            let end_v = match parse_run(s, i + 1, e2, 2147483646) {
                Option::Some(v) => v,
                Option::None => {
                    return Err(());
                },
            };
            ids_end = end_v as i32 + 1;
            i = e2;
        } else {
            if start_v > 2147483646 {
                return Err(());
            }
            ids_end = start_v as i32 + 1;
        }

        // Optional @OPEN.
        let open_id: Option<u32>;
        if i < s.len() && s[i] == 64 {
            let e3 = digit_run_end_exec(s, i + 1);
            proof {
                lemma_digit_run_end(s@, i + 1);
            }
            if e3 == i + 1 {
                return Err(());
            }
            let open_v = match parse_run(s, i + 1, e3, 4294967295) {
                Option::Some(v) => v,
                Option::None => {
                    return Err(());
                },
            };
            open_id = Some(open_v as u32);
            i = e3;
        } else {
            open_id = None;
        }

        if ids_end <= ids_start {
            return Err(());
        }

        // Optional .REL_START-REL_END, which must reach the end of input.
        if i == s.len() {
            return Ok(Segments { ids: ids_start..ids_end, open_id, start_time: 0, end_time: None });
        }
        if s[i] != 46 {
            return Err(());
        }
        let e4 = digit_run_end_exec(s, i + 1);
        proof {
            lemma_digit_run_end(s@, i + 1);
        }
        let start_time: i64;
        if e4 == i + 1 {
            start_time = 0;
            proof {
                assert(s@.subrange(i + 1, e4 as int) =~= Seq::<u8>::empty());
            }
        } else {
            let st = match parse_run(s, i + 1, e4, 9223372036854775807) {
                Option::Some(v) => v,
                Option::None => {
                    return Err(());
                },
            };
            start_time = st as i64;
        }
        if !(e4 < s.len() && s[e4] == 45) {
            return Err(());
        }
        let e5 = digit_run_end_exec(s, e4 + 1);
        proof {
            lemma_digit_run_end(s@, e4 + 1);
        }
        if e5 != s.len() {
            return Err(());
        }
        if e5 == e4 + 1 {
            return Ok(Segments { ids: ids_start..ids_end, open_id, start_time, end_time: None });
        }
        let et = match parse_run(s, e4 + 1, e5, 9223372036854775807) {
            Option::Some(v) => v,
            Option::None => {
                return Err(());
            },
        };
        let end_time = et as i64;
        if end_time <= start_time {
            return Err(());
        }
        Ok(Segments { ids: ids_start..ids_end, open_id, start_time, end_time: Some(end_time) })
    }

    /// Canonical text of this selection in the grammar `parse` accepts.
    pub fn serialize(&self) -> (r: Vec<u8>)
        requires
            spec_wf(*self),
        ensures
            r@ == spec_serialize(*self),
    {
        let mut out = format_u64(self.ids.start as u64);
        if self.ids.end - 1 > self.ids.start {
            out.push(45);
            let mut d = format_u64((self.ids.end - 1) as u64);
            out.append(&mut d);
        }
        proof {
            assert(out@ =~= spec_ser_ids(*self));
        }
        match self.open_id {
            Option::Some(o) => {
                out.push(64);
                let mut d = format_u64(o as u64);
                out.append(&mut d);
            },
            Option::None => {},
        }
        proof {
            assert(out@ =~= spec_ser_ids(*self) + spec_ser_open(*self));
        }
        if self.start_time != 0 || self.end_time.is_some() {
            out.push(46);
            let mut d = format_u64(self.start_time as u64);
            out.append(&mut d);
            out.push(45);
            match self.end_time {
                Option::Some(e) => {
                    let mut d2 = format_u64(e as u64);
                    out.append(&mut d2);
                },
                Option::None => {},
            }
        }
        proof {
            assert(out@ =~= spec_serialize(*self));
        }
        out
    }
}

/// Every selection the grammar accepts is well-formed.
pub proof fn lemma_parse_wf(s: Seq<u8>, seg: Segments)
    requires
        spec_parse(s) == Ok::<Segments, ()>(seg),
    ensures
        spec_wf(seg),
{
    let e1 = digit_run_end(s, 0);
    lemma_digit_run_end(s, 0);
    lemma_run_val_nonneg(s, 0, e1);
    let start_v = digits_val(s.take(e1));
    let after_ids = spec_parse_end_ids(s, e1, start_v);
    if e1 < s.len() && s[e1] == 45 {
        let e = digit_run_end(s, e1 + 1);
        lemma_digit_run_end(s, e1 + 1);
        lemma_run_val_nonneg(s, e1 + 1, e);
        lemma_open_wf(s, e, start_v, digits_val(s.subrange(e1 + 1, e)) + 1, seg);
    } else {
        lemma_open_wf(s, e1, start_v, start_v + 1, seg);
    }
}

/// Digit-run values are non-negative.
proof fn lemma_run_val_nonneg(s: Seq<u8>, from: int, to: int)
    requires
        0 <= from <= to <= s.len(),
        forall|j: int| from <= j < to ==> is_digit(#[trigger] s[j]),
    ensures
        digits_val(s.subrange(from, to)) >= 0,
        from == 0 ==> digits_val(s.take(to)) >= 0,
{
    assert(all_digits(s.subrange(from, to)));
    lemma_digits_val_bounds(s.subrange(from, to));
    if from == 0 {
        assert(s.take(to) =~= s.subrange(0, to));
    }
}

proof fn lemma_open_wf(s: Seq<u8>, i: int, ids_start: int, ids_end: int, seg: Segments)
    requires
        0 <= i <= s.len(),
        ids_start >= 0,
        ids_start <= i32::MAX,
        ids_end <= i32::MAX,
        spec_parse_open(s, i, ids_start, ids_end) == Ok::<Segments, ()>(seg),
    ensures
        spec_wf(seg),
{
    if i < s.len() && s[i] == 64 {
        let e = digit_run_end(s, i + 1);
        lemma_digit_run_end(s, i + 1);
        let v = digits_val(s.subrange(i + 1, e));
        lemma_times_wf(s, e, ids_start, ids_end, Some(v), seg);
    } else {
        lemma_times_wf(s, i, ids_start, ids_end, None, seg);
    }
}

proof fn lemma_times_wf(
    s: Seq<u8>,
    i: int,
    ids_start: int,
    ids_end: int,
    ov: Option<int>,
    seg: Segments,
)
    requires
        0 <= i <= s.len(),
        ids_start >= 0,
        ids_start <= i32::MAX,
        ids_end <= i32::MAX,
        spec_parse_ids_check(s, i, ids_start, ids_end, ov) == Ok::<Segments, ()>(seg),
    ensures
        spec_wf(seg),
{
    if i < s.len() && s[i] == 46 {
        let e4 = digit_run_end(s, i + 1);
        lemma_digit_run_end(s, i + 1);
        lemma_run_val_nonneg(s, i + 1, e4);
        if e4 < s.len() && s[e4] == 45 {
            let e5 = digit_run_end(s, e4 + 1);
            lemma_digit_run_end(s, e4 + 1);
            lemma_run_val_nonneg(s, e4 + 1, e5);
        }
    }
}

/// Selection round-trip: for any accepted selection string, re-serializing
/// the parsed selection is accepted again with the same meaning.
pub proof fn lemma_selection_round_trip(s: Seq<u8>, seg: Segments)
    requires
        spec_parse(s) == Ok::<Segments, ()>(seg),
    ensures
        spec_parse(spec_serialize(seg)) == Ok::<Segments, ()>(seg),
{
    lemma_parse_wf(s, seg);
    lemma_round_trip(seg);
}

/// Selection round-trip: re-parsing the canonical text of a well-formed
/// selection yields exactly that selection.
pub proof fn lemma_round_trip(seg: Segments)
    requires
        spec_wf(seg),
    ensures
        spec_parse(spec_serialize(seg)) == Ok::<Segments, ()>(seg),
{
    let s = spec_serialize(seg);
    let st0 = seg.ids.start as int;
    let end0 = seg.ids.end as int;
    let n1 = dec_digits(st0).len() as int;
    let i2 = spec_ser_ids(seg).len() as int;
    let i3 = i2 + spec_ser_open(seg).len();
    lemma_dec_digits(st0);
    lemma_rt_start(seg);
    lemma_rt_ids(seg);
    lemma_rt_open(seg);
    lemma_rt_tail(seg);
    let ov: Option<int> = match seg.open_id {
        Option::Some(o) => Some(o as int),
        Option::None => None,
    };
    lemma_round_trip_times(seg, s, i3, st0, end0, ov);
}

/// The serialized text splits into its four sections.
proof fn lemma_rt_chunks(seg: Segments)
    requires
        spec_wf(seg),
    ensures
        spec_serialize(seg) == ((dec_digits(seg.ids.start as int) + spec_ser_end_chunk(seg))
            + spec_ser_open(seg)) + spec_ser_times(seg),
        spec_ser_ids(seg) == dec_digits(seg.ids.start as int) + spec_ser_end_chunk(seg),
        spec_ser_ids(seg).len() == dec_digits(seg.ids.start as int).len()
            + spec_ser_end_chunk(seg).len(),
{
}

/// The `-END` chunk of the canonical text.
pub open spec fn spec_ser_end_chunk(seg: Segments) -> Seq<u8> {
    if seg.ids.end - 1 > seg.ids.start {
        seq![45u8] + dec_digits(seg.ids.end - 1)
    } else {
        Seq::<u8>::empty()
    }
}

/// The leading digit run of the canonical text is exactly the start id.
proof fn lemma_rt_start(seg: Segments)
    requires
        spec_wf(seg),
    ensures
        digit_run_end(spec_serialize(seg), 0) == dec_digits(seg.ids.start as int).len(),
        digits_val(spec_serialize(seg).take(dec_digits(seg.ids.start as int).len() as int))
            == seg.ids.start as int,
{
    let s = spec_serialize(seg);
    let st0 = seg.ids.start as int;
    let a = dec_digits(st0);
    let b = spec_ser_end_chunk(seg);
    let c = spec_ser_open(seg);
    let dt = spec_ser_times(seg);
    lemma_rt_chunks(seg);
    lemma_dec_digits(st0);
    let n1 = a.len() as int;
    assert forall|j: int| 0 <= j < n1 implies is_digit(#[trigger] s[j]) by {
        assert(s[j] == a[j]);
    }
    if b.len() > 0 {
        assert(s[n1] == b[0]);
        assert(!is_digit(s[n1]));
    } else if c.len() > 0 {
        assert(s[n1] == c[0]);
        assert(!is_digit(s[n1]));
    } else if dt.len() > 0 {
        assert(s[n1] == dt[0]);
        assert(!is_digit(s[n1]));
    } else {
        assert(n1 == s.len());
    }
    lemma_digit_run_end_exact(s, 0, n1);
    assert(s.take(n1) =~= a);
}

/// Parsing the optional `-END` section of the canonical text lands at the
/// open section with the selection's own id range.
proof fn lemma_rt_ids(seg: Segments)
    requires
        spec_wf(seg),
    ensures
        spec_parse_end_ids(
            spec_serialize(seg),
            dec_digits(seg.ids.start as int).len() as int,
            seg.ids.start as int,
        ) == spec_parse_open(
            spec_serialize(seg),
            spec_ser_ids(seg).len() as int,
            seg.ids.start as int,
            seg.ids.end as int,
        ),
{
    let s = spec_serialize(seg);
    let st0 = seg.ids.start as int;
    let end0 = seg.ids.end as int;
    let e0 = end0 - 1;
    let a = dec_digits(st0);
    let b = spec_ser_end_chunk(seg);
    let c = spec_ser_open(seg);
    let dt = spec_ser_times(seg);
    lemma_rt_chunks(seg);
    lemma_dec_digits(st0);
    let n1 = a.len() as int;
    let i2 = n1 + b.len();
    if e0 > st0 {
        let dend = dec_digits(e0);
        lemma_dec_digits(e0);
        assert(s[n1] == b[0]);
        assert forall|j: int| 0 <= j < dend.len() implies s.subrange(n1 + 1, i2)[j]
            == dend[j] by {
            assert(s.subrange(n1 + 1, i2)[j] == s[n1 + 1 + j]);
            assert(s[n1 + 1 + j] == b[1 + j]);
            assert(b[1 + j] == dend[j]);
        }
        assert(s.subrange(n1 + 1, i2) =~= dend);
        assert forall|j: int| n1 + 1 <= j < i2 implies is_digit(#[trigger] s[j]) by {
            assert(s[j] == s.subrange(n1 + 1, i2)[j - n1 - 1]);
        }
        if c.len() > 0 {
            assert(s[i2] == c[0]);
            assert(!is_digit(s[i2]));
        } else if dt.len() > 0 {
            assert(s[i2] == dt[0]);
            assert(!is_digit(s[i2]));
        } else {
            assert(i2 == s.len());
        }
        lemma_digit_run_end_exact(s, n1 + 1, i2);
        assert(digits_val(s.subrange(n1 + 1, i2)) == e0);
    } else {
        assert(i2 == n1);
        assert(end0 == st0 + 1);
        if c.len() > 0 {
            assert(s[n1] == c[0]);
        } else if dt.len() > 0 {
            assert(s[n1] == dt[0]);
        } else {
            assert(n1 == s.len());
        }
    }
}

/// Parsing the optional `@OPEN` section of the canonical text lands at
/// the times section with the selection's own open id.
proof fn lemma_rt_open(seg: Segments)
    requires
        spec_wf(seg),
    ensures
        spec_parse_open(
            spec_serialize(seg),
            spec_ser_ids(seg).len() as int,
            seg.ids.start as int,
            seg.ids.end as int,
        ) == spec_parse_times(
            spec_serialize(seg),
            spec_ser_ids(seg).len() + spec_ser_open(seg).len() as int,
            seg.ids.start as int,
            seg.ids.end as int,
            match seg.open_id {
                Option::Some(o) => Some(o as int),
                Option::None => None,
            },
        ),
{
    let s = spec_serialize(seg);
    let st0 = seg.ids.start as int;
    let end0 = seg.ids.end as int;
    let a = dec_digits(st0);
    let b = spec_ser_end_chunk(seg);
    let c = spec_ser_open(seg);
    let dt = spec_ser_times(seg);
    lemma_rt_chunks(seg);
    let i2 = spec_ser_ids(seg).len() as int;
    let i3 = i2 + c.len();
    match seg.open_id {
        Option::Some(oid) => {
            let o = oid as int;
            let dopen = dec_digits(o);
            lemma_dec_digits(o);
            assert(s[i2] == c[0]);
            assert forall|j: int| 0 <= j < dopen.len() implies s.subrange(i2 + 1, i3)[j]
                == dopen[j] by {
                assert(s.subrange(i2 + 1, i3)[j] == s[i2 + 1 + j]);
                assert(s[i2 + 1 + j] == c[1 + j]);
                assert(c[1 + j] == dopen[j]);
            }
            assert(s.subrange(i2 + 1, i3) =~= dopen);
            assert forall|j: int| i2 + 1 <= j < i3 implies is_digit(#[trigger] s[j]) by {
                assert(s[j] == s.subrange(i2 + 1, i3)[j - i2 - 1]);
            }
            if dt.len() > 0 {
                assert(s[i3] == dt[0]);
                assert(!is_digit(s[i3]));
            } else {
                assert(i3 == s.len());
            }
            lemma_digit_run_end_exact(s, i2 + 1, i3);
            assert(digits_val(s.subrange(i2 + 1, i3)) == o);
        },
        Option::None => {
            assert(i3 == i2);
            if dt.len() > 0 {
                assert(s[i2] == dt[0]);
            } else {
                assert(i2 == s.len());
            }
        },
    }
}

/// Past the id and open sections, the rest of the canonical text is the
/// times section.
proof fn lemma_rt_tail(seg: Segments)
    requires
        spec_wf(seg),
    ensures
        spec_serialize(seg).subrange(
            spec_ser_ids(seg).len() + spec_ser_open(seg).len() as int,
            spec_serialize(seg).len() as int,
        ) =~= spec_ser_times(seg),
{
    let s = spec_serialize(seg);
    let dt = spec_ser_times(seg);
    lemma_rt_chunks(seg);
    let i3 = spec_ser_ids(seg).len() + spec_ser_open(seg).len();
    assert forall|j: int| 0 <= j < dt.len() implies s.subrange(i3 as int, s.len() as int)[j]
        == dt[j] by {
        assert(s.subrange(i3 as int, s.len() as int)[j] == s[i3 + j]);
    }
}


/// The trim-window tail of the round trip: parsing resumes at `i3` with the
/// id and open sections already consumed.
proof fn lemma_round_trip_times(seg: Segments, s: Seq<u8>, i3: int, st0: int, end0: int, ov: Option<int>)
    requires
        spec_wf(seg),
        st0 == seg.ids.start as int,
        end0 == seg.ids.end as int,
        0 <= i3 <= s.len(),
        s.subrange(i3, s.len() as int) =~= spec_ser_times(seg),
        match ov {
            Option::Some(o) => seg.open_id == Some(o as u32) && 0 <= o <= u32::MAX,
            Option::None => seg.open_id is None,
        },
    ensures
        spec_parse_times(s, i3, st0, end0, ov) == Ok::<Segments, ()>(seg),
{
    let has_times = seg.start_time != 0 || seg.end_time is Some;
    let t0 = seg.start_time as int;
    let dt = spec_ser_times(seg);
    let rest = s.subrange(i3, s.len() as int);
    assert(rest.len() == s.len() - i3);
    if !has_times {
        assert(dt.len() == 0);
        assert(i3 == s.len());
        assert(spec_parse_times(s, i3, st0, end0, ov) == Ok::<Segments, ()>(
            spec_make(st0, end0, ov, 0, None),
        ));
        assert(spec_make(st0, end0, ov, 0, None) == seg);
    } else {
        let dstart = dec_digits(t0);
        lemma_dec_digits(t0);
        let tail: Seq<u8> = match seg.end_time {
            Option::Some(e) => dec_digits(e as int),
            Option::None => Seq::<u8>::empty(),
        };
        assert(dt == ((seq![46u8] + dstart) + seq![45u8]) + tail);
        let i4 = i3 + 1 + dstart.len();
        assert(s.len() == i4 + 1 + tail.len());
        assert(s[i3] == rest[0]);
        assert(dt[0] == 46);
        assert(s[i3] == 46);
        assert forall|j: int| 0 <= j < dstart.len() implies s.subrange(i3 + 1, i4)[j]
            == dstart[j] by {
            assert(s.subrange(i3 + 1, i4)[j] == s[i3 + 1 + j]);
            assert(rest[1 + j] == s[i3 + 1 + j]);
            assert(dt[1 + j] == dstart[j]);
        }
        assert(s.subrange(i3 + 1, i4) =~= dstart);
        assert forall|j: int| i3 + 1 <= j < i4 implies is_digit(#[trigger] s[j]) by {
            assert(s[j] == s.subrange(i3 + 1, i4)[j - i3 - 1]);
        }
        assert(dt[1 + dstart.len() as int] == 45);
        assert(s[i4] == rest[1 + dstart.len() as int]);
        assert(s[i4] == 45);
        lemma_digit_run_end_exact(s, i3 + 1, i4);
        assert(digits_val(s.subrange(i3 + 1, i4)) == t0);
        match seg.end_time {
            Option::None => {
                assert(i4 + 1 == s.len());
                assert(digit_run_end(s, i4 + 1) == i4 + 1) by {
                    lemma_digit_run_end(s, i4 + 1);
                }
                assert(spec_parse_times(s, i3, st0, end0, ov) == Ok::<Segments, ()>(
                    spec_make(st0, end0, ov, t0, None),
                ));
                assert(spec_make(st0, end0, ov, t0, None) == seg);
            },
            Option::Some(e) => {
                let ev = e as int;
                let dend = dec_digits(ev);
                lemma_dec_digits(ev);
                assert(i4 + 1 + dend.len() == s.len());
                assert forall|j: int| 0 <= j < dend.len() implies s.subrange(
                    i4 + 1,
                    s.len() as int,
                )[j] == dend[j] by {
                    assert(s.subrange(i4 + 1, s.len() as int)[j] == s[i4 + 1 + j]);
                    assert(rest[2 + dstart.len() + j] == s[i4 + 1 + j]);
                    assert(dt[2 + dstart.len() + j] == dend[j]);
                }
                assert(s.subrange(i4 + 1, s.len() as int) =~= dend);
                assert forall|j: int| i4 + 1 <= j < s.len() implies is_digit(
                    #[trigger] s[j],
                ) by {
                    assert(s[j] == s.subrange(i4 + 1, s.len() as int)[j - i4 - 1]);
                }
                lemma_digit_run_end_exact(s, i4 + 1, s.len() as int);
                assert(digits_val(s.subrange(i4 + 1, s.len() as int)) == ev);
                assert(spec_parse_times(s, i3, st0, end0, ov) == Ok::<Segments, ()>(
                    spec_make(st0, end0, ov, t0, Some(ev)),
                ));
                assert(spec_make(st0, end0, ov, t0, Some(ev)) == seg);
            },
        }
    }
}

} // verus!
