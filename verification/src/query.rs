//! Query-string handling for the JSON and video endpoints: boolean flags
//! (last occurrence wins), 90 kHz time windows, and the `view.mp4` /
//! `view.m4s` query, whose only understood keys are `s` and `ts` — any
//! other key is refused.

use vstd::prelude::*;
use vstd::string::{StrSliceExecFns, StringSliceAdditionalSpecFns};

use crate::bytes::bytes_eq;
use crate::nums::{parse_i64_dec, spec_parse_i64_dec};
use crate::outside::{parse_query, query_pairs_of};
use crate::segments::{spec_parse, Segments};
use crate::types::{is_plain, plain_response_str, Permissions, Reply};

verus! {

/// The decoded pairs of a query string as plain sequences.
pub open spec fn pairs_view(pairs: Seq<(Vec<u8>, Vec<u8>)>) -> Seq<(Seq<u8>, Seq<u8>)> {
    pairs.map_values(|p: (Vec<u8>, Vec<u8>)| (p.0@, p.1@))
}

/// A boolean query flag: the last occurrence of `key` decides, comparing
/// its value against `true`; absent, the flag keeps `init`.
pub open spec fn spec_flag(pairs: Seq<(Seq<u8>, Seq<u8>)>, key: Seq<u8>, init: bool) -> bool
    decreases pairs.len(),
{
    if pairs.len() == 0 {
        init
    } else {
        if pairs.last().0 == key {
            pairs.last().1 == ("true").spec_bytes()
        } else {
            spec_flag(pairs.drop_last(), key, init)
        }
    }
}

/// Value of a boolean query flag over decoded pairs.
fn flag_of(pairs: &Vec<(Vec<u8>, Vec<u8>)>, key: &[u8], init: bool) -> (r: bool)
    ensures
        r == spec_flag(pairs_view(pairs@), key@, init),
{
    let mut r = init;
    let mut i: usize = 0;
    while i < pairs.len()
        invariant
            0 <= i <= pairs@.len(),
            r == spec_flag(pairs_view(pairs@).take(i as int), key@, init),
        decreases pairs@.len() - i,
    {
        proof {
            assert(pairs_view(pairs@).take(i + 1).drop_last() =~= pairs_view(pairs@).take(
                i as int,
            ));
            assert(pairs_view(pairs@).take(i + 1).last() == pairs_view(pairs@)[i as int]);
        }
        if bytes_eq(pairs[i].0.as_slice(), key) {
            r = bytes_eq(pairs[i].1.as_slice(), "true".as_bytes());
        }
        i += 1;
    }
    proof {
        assert(pairs_view(pairs@).take(pairs@.len() as int) =~= pairs_view(pairs@));
    }
    r
}

/// What the top-level endpoint derives from its query: per-day aggregates
/// and camera configurations, the latter needing a permission.
#[derive(Clone, Copy, Debug, PartialEq, Eq, Structural)]
pub struct TopLevelPlan {
    pub days: bool,
    pub camera_configs: bool,
}

pub open spec fn spec_top_level(
    r: Result<TopLevelPlan, Reply>,
    pv: Seq<(Seq<u8>, Seq<u8>)>,
    perms: Permissions,
) -> bool {
    let days = spec_flag(pv, ("days").spec_bytes(), false);
    let cc = spec_flag(pv, ("cameraConfigs").spec_bytes(), false);
    if cc && !perms.read_camera_configs {
        r matches Err(e) && is_plain(e, 401, ("read_camera_configs required").spec_bytes())
    } else {
        r == Ok::<TopLevelPlan, Reply>(TopLevelPlan { days, camera_configs: cc })
    }
}

/// Decides the top-level request from its raw query string: which
/// aggregates to include, refusing camera configurations without the
/// `read_camera_configs` permission.
pub fn top_level_plan(query: &str, perms: &Permissions) -> (r: Result<TopLevelPlan, Reply>)
    ensures
        spec_top_level(r, query_pairs_of(query.spec_bytes()), *perms),
{
    let pairs = parse_query(query.as_bytes());
    proof {
        assert(pairs_view(pairs@) =~= query_pairs_of(query.spec_bytes()));
    }
    let days = flag_of(&pairs, "days".as_bytes(), false);
    let camera_configs = flag_of(&pairs, "cameraConfigs".as_bytes(), false);
    if camera_configs && !perms.read_camera_configs {
        return Err(plain_response_str(401, "read_camera_configs required"));
    }
    Ok(TopLevelPlan { days, camera_configs })
}

/// A 90 kHz window with an aggregation split, as the recordings endpoint
/// reads it; the defaults cover all of time, unsplit.
#[derive(Clone, Copy, Debug, PartialEq, Eq, Structural)]
pub struct RecordingsQuery {
    pub start_90k: i64,
    pub end_90k: i64,
    pub split_90k: i64,
}

/// Scans recordings-query pairs in order; the first unparseable value is
/// reported (0: startTime90k, 1: endTime90k, 2: split90k), later
/// occurrences of a key override earlier ones, and unknown keys are
/// ignored.
pub open spec fn spec_recordings_query(
    pv: Seq<(Seq<u8>, Seq<u8>)>,
    i: int,
    acc: RecordingsQuery,
) -> Result<RecordingsQuery, int>
    decreases pv.len() - i,
{
    if i < 0 || i >= pv.len() {
        Ok(acc)
    } else {
        let k = pv[i].0;
        let v = pv[i].1;
        if k == ("startTime90k").spec_bytes() {
            match spec_parse_i64_dec(v) {
                Option::Some(t) => spec_recordings_query(
                    pv,
                    i + 1,
                    RecordingsQuery { start_90k: t as i64, ..acc },
                ),
                Option::None => Err(0),
            }
        } else if k == ("endTime90k").spec_bytes() {
            match spec_parse_i64_dec(v) {
                Option::Some(t) => spec_recordings_query(
                    pv,
                    i + 1,
                    RecordingsQuery { end_90k: t as i64, ..acc },
                ),
                Option::None => Err(1),
            }
        } else if k == ("split90k").spec_bytes() {
            match spec_parse_i64_dec(v) {
                Option::Some(t) => spec_recordings_query(
                    pv,
                    i + 1,
                    RecordingsQuery { split_90k: t as i64, ..acc },
                ),
                Option::None => Err(2),
            }
        } else {
            spec_recordings_query(pv, i + 1, acc)
        }
    }
}

pub open spec fn spec_recordings_query_default() -> RecordingsQuery {
    RecordingsQuery { start_90k: i64::MIN, end_90k: i64::MAX, split_90k: i64::MAX }
}

/// Reads the recordings window from the raw query string.
pub fn recordings_query(query: &str) -> (r: Result<RecordingsQuery, Reply>)
    ensures
        match spec_recordings_query(
            query_pairs_of(query.spec_bytes()),
            0,
            spec_recordings_query_default(),
        ) {
            Ok(q) => r == Ok::<RecordingsQuery, Reply>(q),
            Err(which) => r matches Err(e) && is_plain(
                e,
                400,
                if which == 0 {
                    ("unparseable startTime90k").spec_bytes()
                } else if which == 1 {
                    ("unparseable endTime90k").spec_bytes()
                } else {
                    ("unparseable split90k").spec_bytes()
                },
            ),
        },
{
    let pairs = parse_query(query.as_bytes());
    proof {
        assert(pairs_view(pairs@) =~= query_pairs_of(query.spec_bytes()));
    }
    let pv = Ghost(pairs_view(pairs@));
    let mut acc = RecordingsQuery { start_90k: i64::MIN, end_90k: i64::MAX, split_90k: i64::MAX };
    let mut i: usize = 0;
    while i < pairs.len()
        invariant
            0 <= i <= pairs@.len(),
            pv@ == pairs_view(pairs@),
            pv@ == query_pairs_of(query.spec_bytes()),
            spec_recordings_query(pv@, 0, spec_recordings_query_default())
                == spec_recordings_query(pv@, i as int, acc),
        decreases pairs@.len() - i,
    {
        proof {
            assert(pv@[i as int] == (pairs@[i as int].0@, pairs@[i as int].1@));
        }
        let k = pairs[i].0.as_slice();
        let v = pairs[i].1.as_slice();
        if bytes_eq(k, "startTime90k".as_bytes()) {
            match parse_i64_dec(v) {
                Option::Some(t) => {
                    acc.start_90k = t;
                },
                Option::None => {
                    return Err(plain_response_str(400, "unparseable startTime90k"));
                },
            }
        } else if bytes_eq(k, "endTime90k".as_bytes()) {
            match parse_i64_dec(v) {
                Option::Some(t) => {
                    acc.end_90k = t;
                },
                Option::None => {
                    return Err(plain_response_str(400, "unparseable endTime90k"));
                },
            }
        } else if bytes_eq(k, "split90k".as_bytes()) {
            match parse_i64_dec(v) {
                Option::Some(t) => {
                    acc.split_90k = t;
                },
                Option::None => {
                    return Err(plain_response_str(400, "unparseable split90k"));
                },
            }
        }
        i += 1;
    }
    Ok(acc)
}

/// Scans signals-query pairs: like the recordings query, without a split.
pub open spec fn spec_signals_query(
    pv: Seq<(Seq<u8>, Seq<u8>)>,
    i: int,
    acc: RecordingsQuery,
) -> Result<RecordingsQuery, int>
    decreases pv.len() - i,
{
    if i < 0 || i >= pv.len() {
        Ok(acc)
    } else {
        let k = pv[i].0;
        let v = pv[i].1;
        if k == ("startTime90k").spec_bytes() {
            match spec_parse_i64_dec(v) {
                Option::Some(t) => spec_signals_query(
                    pv,
                    i + 1,
                    RecordingsQuery { start_90k: t as i64, ..acc },
                ),
                Option::None => Err(0),
            }
        } else if k == ("endTime90k").spec_bytes() {
            match spec_parse_i64_dec(v) {
                Option::Some(t) => spec_signals_query(
                    pv,
                    i + 1,
                    RecordingsQuery { end_90k: t as i64, ..acc },
                ),
                Option::None => Err(1),
            }
        } else {
            spec_signals_query(pv, i + 1, acc)
        }
    }
}

/// Reads the signals window from the raw query string.
pub fn signals_query(query: &str) -> (r: Result<RecordingsQuery, Reply>)
    ensures
        match spec_signals_query(
            query_pairs_of(query.spec_bytes()),
            0,
            spec_recordings_query_default(),
        ) {
            Ok(q) => r == Ok::<RecordingsQuery, Reply>(q),
            Err(which) => r matches Err(e) && is_plain(
                e,
                400,
                if which == 0 {
                    ("unparseable startTime90k").spec_bytes()
                } else {
                    ("unparseable endTime90k").spec_bytes()
                },
            ),
        },
{
    let pairs = parse_query(query.as_bytes());
    proof {
        assert(pairs_view(pairs@) =~= query_pairs_of(query.spec_bytes()));
    }
    let pv = Ghost(pairs_view(pairs@));
    let mut acc = RecordingsQuery { start_90k: i64::MIN, end_90k: i64::MAX, split_90k: i64::MAX };
    let mut i: usize = 0;
    while i < pairs.len()
        invariant
            0 <= i <= pairs@.len(),
            pv@ == pairs_view(pairs@),
            pv@ == query_pairs_of(query.spec_bytes()),
            spec_signals_query(pv@, 0, spec_recordings_query_default()) == spec_signals_query(
                pv@,
                i as int,
                acc,
            ),
        decreases pairs@.len() - i,
    {
        proof {
            assert(pv@[i as int] == (pairs@[i as int].0@, pairs@[i as int].1@));
        }
        let k = pairs[i].0.as_slice();
        let v = pairs[i].1.as_slice();
        if bytes_eq(k, "startTime90k".as_bytes()) {
            match parse_i64_dec(v) {
                Option::Some(t) => {
                    acc.start_90k = t;
                },
                Option::None => {
                    return Err(plain_response_str(400, "unparseable startTime90k"));
                },
            }
        } else if bytes_eq(k, "endTime90k".as_bytes()) {
            match parse_i64_dec(v) {
                Option::Some(t) => {
                    acc.end_90k = t;
                },
                Option::None => {
                    return Err(plain_response_str(400, "unparseable endTime90k"));
                },
            }
        }
        i += 1;
    }
    Ok(acc)
}

/// What a `view.mp4` / `view.m4s` query asks for: the selections, in
/// order, and whether to include the timestamp subtitle track.
#[derive(Debug)]
pub struct ViewRequest {
    pub selections: Vec<Segments>,
    pub ts: bool,
}

/// Scans view-query pairs in order. `s` values parse as selections and
/// accumulate; `ts` toggles the subtitle track; anything else is an
/// unknown key. The error carries whether the key was unknown (true, with
/// the key) or an `s` value was invalid (false, with the value).
pub open spec fn spec_view_query(
    pv: Seq<(Seq<u8>, Seq<u8>)>,
    i: int,
    sels: Seq<Segments>,
    ts: bool,
) -> Result<(Seq<Segments>, bool), (bool, Seq<u8>)>
    decreases pv.len() - i,
{
    if i < 0 || i >= pv.len() {
        Ok((sels, ts))
    } else {
        let k = pv[i].0;
        let v = pv[i].1;
        if k == ("s").spec_bytes() {
            match spec_parse(v) {
                Ok(seg) => spec_view_query(pv, i + 1, sels.push(seg), ts),
                Err(_) => Err((false, v)),
            }
        } else if k == ("ts").spec_bytes() {
            spec_view_query(pv, i + 1, sels, v == ("true").spec_bytes())
        } else {
            Err((true, k))
        }
    }
}

/// Unknown-key rejection: a view query holding any key other than `s` and
/// `ts` is refused, whatever else it holds.
pub proof fn lemma_unknown_key_rejected(
    pv: Seq<(Seq<u8>, Seq<u8>)>,
    j: int,
    i: int,
    sels: Seq<Segments>,
    ts: bool,
)
    requires
        0 <= i <= j < pv.len(),
        pv[j].0 != ("s").spec_bytes(),
        pv[j].0 != ("ts").spec_bytes(),
    ensures
        spec_view_query(pv, i, sels, ts) is Err,
    decreases j - i,
{
    if i < j {
        let k = pv[i].0;
        let v = pv[i].1;
        if k == ("s").spec_bytes() {
            match spec_parse(v) {
                Ok(seg) => {
                    lemma_unknown_key_rejected(pv, j, i + 1, sels.push(seg), ts);
                },
                Err(_) => {},
            }
        } else if k == ("ts").spec_bytes() {
            lemma_unknown_key_rejected(pv, j, i + 1, sels, v == ("true").spec_bytes());
        }
    }
}

/// The message body of a refused view query.
pub open spec fn spec_view_query_err_body(unknown: bool, detail: Seq<u8>) -> Seq<u8> {
    if unknown {
        ("parameter ").spec_bytes() + detail + (" not understood").spec_bytes()
    } else {
        ("invalid s parameter: ").spec_bytes() + detail
    }
}

/// Reads a view query from the raw query string: every key must be `s` or
/// `ts`, and every `s` value must parse; otherwise the request fails with
/// the offending key or value named.
#[verifier::rlimit(60)]
pub fn view_query(query: &str) -> (r: Result<ViewRequest, Reply>)
    ensures
        match spec_view_query(query_pairs_of(query.spec_bytes()), 0, Seq::<Segments>::empty(),
            false) {
            Ok(st) => r matches Ok(vr) && vr.selections@ == st.0 && vr.ts == st.1,
            Err(e) => r matches Err(rep) && is_plain(
                rep,
                400,
                spec_view_query_err_body(e.0, e.1),
            ),
        },
{
    let pairs = parse_query(query.as_bytes());
    proof {
        assert(pairs_view(pairs@) =~= query_pairs_of(query.spec_bytes()));
    }
    let pv = Ghost(pairs_view(pairs@));
    let mut selections: Vec<Segments> = Vec::new();
    let mut ts = false;
    let mut i: usize = 0;
    while i < pairs.len()
        invariant
            0 <= i <= pairs@.len(),
            pv@ == pairs_view(pairs@),
            pv@ == query_pairs_of(query.spec_bytes()),
            spec_view_query(pv@, 0, Seq::<Segments>::empty(), false) == spec_view_query(
                pv@,
                i as int,
                selections@,
                ts,
            ),
        decreases pairs@.len() - i,
    {
        proof {
            assert(pv@[i as int] == (pairs@[i as int].0@, pairs@[i as int].1@));
        }
        let k = pairs[i].0.as_slice();
        if bytes_eq(k, "s".as_bytes()) {
            match Segments::parse_bytes(pairs[i].1.as_slice()) {
                Ok(seg) => {
                    selections.push(seg);
                },
                Err(()) => {
                    return Err(view_query_err(false, pairs[i].1.as_slice()));
                },
            }
        } else if bytes_eq(k, "ts".as_bytes()) {
            ts = bytes_eq(pairs[i].1.as_slice(), "true".as_bytes());
        } else {
            return Err(view_query_err(true, pairs[i].0.as_slice()));
        }
        i += 1;
    }
    Ok(ViewRequest { selections, ts })
}

fn view_query_err(unknown: bool, detail: &[u8]) -> (r: Reply)
    ensures
        is_plain(r, 400, spec_view_query_err_body(unknown, detail@)),
{
    let mut body = if unknown {
        "parameter ".as_bytes_vec()
    } else {
        "invalid s parameter: ".as_bytes_vec()
    };
    let mut d = vstd::slice::slice_to_vec(detail);
    body.append(&mut d);
    if unknown {
        let mut tail = " not understood".as_bytes_vec();
        body.append(&mut tail);
    }
    proof {
        assert(body@ =~= spec_view_query_err_body(unknown, detail@));
    }
    crate::types::plain_response(400, body)
}

} // verus!
