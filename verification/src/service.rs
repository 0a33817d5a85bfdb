//! Request-level decisions shared by the handlers: the JSON-body
//! preconditions, method dispatch for the signals endpoint, forwarded-
//! header trust, cookie domains, the init-segment lookup, the recordings
//! listing, live fan-out values, UI file classification, and the
//! diagnostic request echo.

use vstd::prelude::*;
use vstd::slice::{slice_subrange, slice_to_vec};
use vstd::string::{StrSliceExecFns, StringSliceAdditionalSpecFns};

use crate::assembly::RecordingRow;
use crate::bytes::{bytes_eq, bytes_ends_with, ends_with, find_from};
use crate::hex::{hex_encode, hex_of};
use crate::nums::{dec_digits, format_i64, format_u64, spec_i64_digits};
use crate::types::{is_plain, plain_response_str, Permissions, Reply};

verus! {

pub open spec fn spec_opt_bytes(b: Option<&[u8]>) -> Option<Seq<u8>> {
    match b {
        Option::Some(t) => Some(t@),
        Option::None => None,
    }
}

/// The JSON-body preconditions shared by login, logout and signal posts:
/// the method must be POST and the body `application/json`.
pub open spec fn spec_json_ct(ct: Option<Seq<u8>>) -> bool {
    match ct {
        Option::Some(t) => t == ("application/json").spec_bytes() || t == (
        "application/json; charset=UTF-8").spec_bytes(),
        Option::None => false,
    }
}

pub fn check_json_request(method: &[u8], content_type: Option<&[u8]>) -> (r: Option<Reply>)
    ensures
        if method@ != ("POST").spec_bytes() {
            r matches Some(e) && is_plain(e, 405, ("POST expected").spec_bytes())
        } else if !spec_json_ct(spec_opt_bytes(content_type)) {
            r matches Some(e) && is_plain(
                e,
                400,
                ("expected application/json request body").spec_bytes(),
            )
        } else {
            r is None
        },
{
    if !bytes_eq(method, "POST".as_bytes()) {
        return Some(plain_response_str(405, "POST expected"));
    }
    let ok = match content_type {
        Option::Some(t) => bytes_eq(t, "application/json".as_bytes()) || bytes_eq(
            t,
            "application/json; charset=UTF-8".as_bytes(),
        ),
        Option::None => false,
    };
    if !ok {
        return Some(plain_response_str(400, "expected application/json request body"));
    }
    None
}

/// How the signals endpoint dispatches on the method.
#[derive(Clone, Copy, Debug, PartialEq, Eq, Structural)]
pub enum SignalsMethod {
    Post,
    Read,
}

pub fn signals_method(method: &[u8]) -> (r: Result<SignalsMethod, Reply>)
    ensures
        if method@ == ("POST").spec_bytes() {
            r == Ok::<SignalsMethod, Reply>(SignalsMethod::Post)
        } else if method@ == ("GET").spec_bytes() || method@ == ("HEAD").spec_bytes() {
            r == Ok::<SignalsMethod, Reply>(SignalsMethod::Read)
        } else {
            r matches Err(e) && is_plain(e, 405, ("POST, GET, or HEAD expected").spec_bytes())
        },
{
    if bytes_eq(method, "POST".as_bytes()) {
        Ok(SignalsMethod::Post)
    } else if bytes_eq(method, "GET".as_bytes()) || bytes_eq(method, "HEAD".as_bytes()) {
        Ok(SignalsMethod::Read)
    } else {
        Err(plain_response_str(405, "POST, GET, or HEAD expected"))
    }
}

/// A request is secure exactly when forwarded headers are trusted and the
/// proxy reported https.
pub fn is_secure(trust_forward_hdrs: bool, x_forwarded_proto: Option<&[u8]>) -> (r: bool)
    ensures
        r == (trust_forward_hdrs && spec_opt_bytes(x_forwarded_proto) == Some(
            ("https").spec_bytes(),
        )),
{
    trust_forward_hdrs && match x_forwarded_proto {
        Option::Some(v) => bytes_eq(v, "https".as_bytes()),
        Option::None => false,
    }
}

/// The cookie domain: the `Host` header up to an optional `:port`.
pub open spec fn spec_domain_of_host(h: Seq<u8>) -> Seq<u8> {
    match find_from(h, 0, 58) {
        Option::Some(c) => h.take(c),
        Option::None => h,
    }
}

pub fn domain_of_host(host: &[u8]) -> (r: Vec<u8>)
    ensures
        r@ == spec_domain_of_host(host@),
{
    match memchr::memchr(58, host) {
        Option::Some(c) => {
            proof {
                crate::bytes::lemma_find_from_bounds(host@, 0, 58);
            }
            let d = slice_subrange(host, 0, c);
            proof {
                assert(d@ =~= host@.take(c as int));
            }
            slice_to_vec(d)
        },
        Option::None => slice_to_vec(host),
    }
}

/// A codec description as stored: dimensions and the 20-byte hash init
/// segments are looked up by.
#[derive(Clone, Copy, Debug, PartialEq, Eq)]
pub struct VideoSampleEntry {
    pub id: i32,
    pub width: u16,
    pub height: u16,
    pub sha1: [u8; 20],
}

/// Index of the first entry with the given hash.
pub open spec fn spec_find_vse(entries: Seq<VideoSampleEntry>, sha1: Seq<u8>, i: int) -> Option<
    int,
>
    decreases entries.len() - i,
{
    if i < 0 || i >= entries.len() {
        None
    } else if entries[i].sha1@ == sha1 {
        Some(i)
    } else {
        spec_find_vse(entries, sha1, i + 1)
    }
}

/// Finds the sample entry an init segment is asked for; `None` exactly
/// when no entry carries the hash.
pub fn find_video_sample_entry(entries: &Vec<VideoSampleEntry>, sha1: &[u8; 20]) -> (r: Option<
    usize,
>)
    ensures
        match r {
            Some(i) => i < entries@.len() && spec_find_vse(entries@, sha1@, 0) == Some(i as int),
            None => spec_find_vse(entries@, sha1@, 0) is None,
        },
{
    let mut i: usize = 0;
    while i < entries.len()
        invariant
            0 <= i <= entries@.len(),
            spec_find_vse(entries@, sha1@, 0) == spec_find_vse(entries@, sha1@, i as int),
        decreases entries@.len() - i,
    {
        if bytes_eq(entries[i].sha1.as_slice(), sha1.as_slice()) {
            return Some(i);
        }
        i += 1;
    }
    None
}

/// Index of the first entry with the given id.
pub open spec fn spec_find_vse_by_id(entries: Seq<VideoSampleEntry>, id: i32, i: int) -> Option<
    int,
>
    decreases entries.len() - i,
{
    if i < 0 || i >= entries.len() {
        None
    } else if entries[i].id == id {
        Some(i)
    } else {
        spec_find_vse_by_id(entries, id, i + 1)
    }
}

fn find_vse_by_id(entries: &Vec<VideoSampleEntry>, id: i32) -> (r: Option<usize>)
    ensures
        match r {
            Some(i) => i < entries@.len() && spec_find_vse_by_id(entries@, id, 0) == Some(
                i as int,
            ),
            None => spec_find_vse_by_id(entries@, id, 0) is None,
        },
{
    let mut i: usize = 0;
    while i < entries.len()
        invariant
            0 <= i <= entries@.len(),
            spec_find_vse_by_id(entries@, id, 0) == spec_find_vse_by_id(entries@, id, i as int),
        decreases entries@.len() - i,
    {
        if entries[i].id == id {
            return Some(i);
        }
        i += 1;
    }
    None
}

/// One aggregated run of recordings as the database reports it; the id
/// range is half-open.
#[derive(Clone, Copy, Debug, PartialEq, Eq, Structural)]
pub struct AggregatedRow {
    pub start_id: i32,
    pub end_id: i32,
    pub start_90k: i64,
    pub end_90k: i64,
    pub sample_file_bytes: i64,
    pub open_id: u32,
    pub first_uncommitted: Option<i32>,
    pub video_samples: i64,
    pub video_sample_entry_id: i32,
    pub growing: bool,
}

/// One row of the recordings listing; ids are inclusive here, and a
/// single-recording run omits its end id.
#[derive(Debug, PartialEq, Eq)]
pub struct RecordingJson {
    pub start_id: i32,
    pub end_id: Option<i32>,
    pub start_time_90k: i64,
    pub end_time_90k: i64,
    pub sample_file_bytes: i64,
    pub open_id: u32,
    pub first_uncommitted: Option<i32>,
    pub video_samples: i64,
    pub video_sample_entry_width: u16,
    pub video_sample_entry_height: u16,
    pub video_sample_entry_sha1: Vec<u8>,
    pub growing: bool,
}

/// `j` reports `row` joined with its sample entry `e`: ids made
/// inclusive, the entry's dimensions, and its hash in lowercase hex.
pub open spec fn spec_recording_json(row: AggregatedRow, e: VideoSampleEntry, j: RecordingJson) -> bool {
    &&& j.start_id == row.start_id
    &&& j.end_id == (if row.end_id - 1 == row.start_id {
        Option::<i32>::None
    } else {
        Option::<i32>::Some((row.end_id - 1) as i32)
    })
    &&& j.start_time_90k == row.start_90k
    &&& j.end_time_90k == row.end_90k
    &&& j.sample_file_bytes == row.sample_file_bytes
    &&& j.open_id == row.open_id
    &&& j.first_uncommitted == row.first_uncommitted
    &&& j.video_samples == row.video_samples
    &&& j.video_sample_entry_width == e.width
    &&& j.video_sample_entry_height == e.height
    &&& j.video_sample_entry_sha1@ == hex_of(e.sha1@)
    &&& j.growing == row.growing
}

/// First row whose sample entry is missing, if any.
pub open spec fn spec_rows_json_err(
    rows: Seq<AggregatedRow>,
    entries: Seq<VideoSampleEntry>,
    i: int,
) -> Option<int>
    decreases rows.len() - i,
{
    if i < 0 || i >= rows.len() {
        None
    } else if spec_find_vse_by_id(entries, rows[i].video_sample_entry_id, 0) is None {
        Some(i)
    } else {
        spec_rows_json_err(rows, entries, i + 1)
    }
}

/// Joins aggregated rows with their sample entries into the listing the
/// recordings endpoint serves; a missing entry is the server's fault.
pub fn recordings_to_json(rows: &Vec<AggregatedRow>, entries: &Vec<VideoSampleEntry>) -> (r:
    Result<Vec<RecordingJson>, Reply>)
    requires
        forall|i: int| 0 <= i < rows@.len() ==> (#[trigger] rows@[i]).end_id > rows@[i].start_id,
    ensures
        match r {
            Ok(out) => {
                &&& spec_rows_json_err(rows@, entries@, 0) is None
                &&& out@.len() == rows@.len()
                &&& forall|i: int| 0 <= i < rows@.len() ==> spec_recording_json(
                    rows@[i],
                    entries@[spec_find_vse_by_id(
                        entries@,
                        rows@[i].video_sample_entry_id,
                        0,
                    )->0],
                    #[trigger] out@[i],
                )
            },
            Err(e) => spec_rows_json_err(rows@, entries@, 0) is Some && is_plain(
                e,
                500,
                ("video sample entry missing").spec_bytes(),
            ),
        },
{
    let mut out: Vec<RecordingJson> = Vec::new();
    let mut i: usize = 0;
    while i < rows.len()
        invariant
            0 <= i <= rows@.len(),
            forall|j: int| 0 <= j < rows@.len() ==> (#[trigger] rows@[j]).end_id
                > rows@[j].start_id,
            spec_rows_json_err(rows@, entries@, 0) == spec_rows_json_err(
                rows@,
                entries@,
                i as int,
            ),
            out@.len() == i,
            forall|j: int| 0 <= j < i ==> spec_recording_json(
                rows@[j],
                entries@[spec_find_vse_by_id(entries@, rows@[j].video_sample_entry_id, 0)->0],
                #[trigger] out@[j],
            ),
        decreases rows@.len() - i,
    {
        let row = rows[i];
        let e = match find_vse_by_id(entries, row.video_sample_entry_id) {
            Option::Some(k) => entries[k],
            Option::None => {
                return Err(plain_response_str(500, "video sample entry missing"));
            },
        };
        let end = row.end_id - 1;
        out.push(
            RecordingJson {
                start_id: row.start_id,
                end_id: if end == row.start_id {
                    None
                } else {
                    Some(end)
                },
                start_time_90k: row.start_90k,
                end_time_90k: row.end_90k,
                sample_file_bytes: row.sample_file_bytes,
                open_id: row.open_id,
                first_uncommitted: row.first_uncommitted,
                video_samples: row.video_samples,
                video_sample_entry_width: e.width,
                video_sample_entry_height: e.height,
                video_sample_entry_sha1: hex_encode(e.sha1.as_slice()),
                growing: row.growing,
            },
        );
        i += 1;
    }
    Ok(out)
}

/// Live streaming is only for `view_video` callers, and only while the
/// database is writable (it then has an open id).
pub fn live_precheck(perms: &Permissions, open_id: Option<u32>) -> (r: Result<u32, Reply>)
    ensures
        if !perms.view_video {
            r matches Err(e) && is_plain(e, 401, ("view_video required").spec_bytes())
        } else {
            match open_id {
                Option::Some(o) => r == Ok::<u32, Reply>(o),
                Option::None => r matches Err(e) && is_plain(
                    e,
                    412,
                    ("database is read-only; there are no live streams").spec_bytes(),
                ),
            }
        },
{
    if !perms.view_video {
        return Err(plain_response_str(401, "view_video required"));
    }
    match open_id {
        Option::Some(o) => Ok(o),
        Option::None => Err(
            plain_response_str(412, "database is read-only; there are no live streams"),
        ),
    }
}

/// A live notification names one flushed recording; the fetch must have
/// found exactly that row.
pub fn live_row_check(rows: &Vec<RecordingRow>, recording_id: i32) -> (r: Result<
    RecordingRow,
    Reply,
>)
    ensures
        if rows@.len() == 1 && rows@[0].id == recording_id {
            r == Ok::<RecordingRow, Reply>(rows@[0])
        } else {
            r matches Err(e) && is_plain(e, 500, ("unable to find live recording").spec_bytes())
        },
{
    if rows.len() == 1 && rows[0].id == recording_id {
        Ok(rows[0])
    } else {
        Err(plain_response_str(500, "unable to find live recording"))
    }
}

/// The header of one multipart part of a live stream.
pub open spec fn spec_live_part_header(
    len: int,
    content_type: Seq<u8>,
    recording_id: int,
    off_start: int,
    off_end: int,
    sha1: Seq<u8>,
) -> Seq<u8> {
    ("--B\r\nContent-Length: ").spec_bytes() + dec_digits(len) + (
    "\r\nContent-Type: ").spec_bytes() + content_type + ("\r\nX-Recording-Id: ").spec_bytes()
        + dec_digits(recording_id) + ("\r\nX-Time-Range: ").spec_bytes() + dec_digits(off_start)
        + seq![45u8] + dec_digits(off_end) + ("\r\nX-Video-Sample-Entry-Sha1: ").spec_bytes()
        + hex_of(sha1) + ("\r\n\r\n").spec_bytes()
}

/// Builds the header of one multipart part: the part's length and type,
/// which recording it came from, its 90 kHz range, and the codec hash.
pub fn live_part_header(
    len: u64,
    content_type: &[u8],
    recording_id: i32,
    off_start: i32,
    off_end: i32,
    sha1: &[u8; 20],
) -> (r: Vec<u8>)
    requires
        recording_id >= 0,
        off_start >= 0,
        off_end >= 0,
    ensures
        r@ == spec_live_part_header(
            len as int,
            content_type@,
            recording_id as int,
            off_start as int,
            off_end as int,
            sha1@,
        ),
{
    let mut out = "--B\r\nContent-Length: ".as_bytes_vec();
    let mut part = format_u64(len);
    out.append(&mut part);
    let mut part = "\r\nContent-Type: ".as_bytes_vec();
    out.append(&mut part);
    let mut part = slice_to_vec(content_type);
    out.append(&mut part);
    let mut part = "\r\nX-Recording-Id: ".as_bytes_vec();
    out.append(&mut part);
    let mut part = format_u64(recording_id as u64);
    out.append(&mut part);
    let mut part = "\r\nX-Time-Range: ".as_bytes_vec();
    out.append(&mut part);
    let mut part = format_u64(off_start as u64);
    out.append(&mut part);
    out.push(45);
    let mut part = format_u64(off_end as u64);
    out.append(&mut part);
    let mut part = "\r\nX-Video-Sample-Entry-Sha1: ".as_bytes_vec();
    out.append(&mut part);
    let mut part = hex_encode(sha1.as_slice());
    out.append(&mut part);
    let mut part = "\r\n\r\n".as_bytes_vec();
    out.append(&mut part);
    proof {
        assert(out@ =~= spec_live_part_header(
            len as int,
            content_type@,
            recording_id as int,
            off_start as int,
            off_end as int,
            sha1@,
        ));
    }
    out
}

/// Where a UI file is served and its MIME type, by file name. `None` for
/// unknown extensions, which are skipped.
pub open spec fn spec_ui_path(nb: Seq<u8>) -> Option<(Seq<u8>, Seq<u8>)> {
    if nb == ("index.html").spec_bytes() {
        Some((("/").spec_bytes(), ("text/html").spec_bytes()))
    } else if ends_with(nb, (".html").spec_bytes()) {
        Some((("/").spec_bytes() + nb, ("text/html").spec_bytes()))
    } else if ends_with(nb, (".ico").spec_bytes()) {
        Some((("/").spec_bytes() + nb, ("image/vnd.microsoft.icon").spec_bytes()))
    } else if ends_with(nb, (".js").spec_bytes()) {
        Some((("/").spec_bytes() + nb, ("text/javascript").spec_bytes()))
    } else if ends_with(nb, (".map").spec_bytes()) {
        Some((("/").spec_bytes() + nb, ("text/javascript").spec_bytes()))
    } else if ends_with(nb, (".png").spec_bytes()) {
        Some((("/").spec_bytes() + nb, ("image/png").spec_bytes()))
    } else {
        None
    }
}

/// Classifies one UI directory entry into its request path and MIME type.
pub fn classify_ui_file(name: &str) -> (r: Option<(Vec<u8>, &'static str)>)
    ensures
        match r {
            Some(p) => spec_ui_path(name.spec_bytes()) == Some((p.0@, p.1.spec_bytes())),
            None => spec_ui_path(name.spec_bytes()) is None,
        },
{
    let nb = name.as_bytes();
    if bytes_eq(nb, "index.html".as_bytes()) {
        return Some(("/".as_bytes_vec(), "text/html"));
    }
    let mime: &'static str = if bytes_ends_with(nb, ".html".as_bytes()) {
        "text/html"
    } else if bytes_ends_with(nb, ".ico".as_bytes()) {
        "image/vnd.microsoft.icon"
    } else if bytes_ends_with(nb, ".js".as_bytes()) {
        "text/javascript"
    } else if bytes_ends_with(nb, ".map".as_bytes()) {
        "text/javascript"
    } else if bytes_ends_with(nb, ".png".as_bytes()) {
        "image/png"
    } else {
        return None;
    };
    let mut path = "/".as_bytes_vec();
    let mut tail = slice_to_vec(nb);
    path.append(&mut tail);
    proof {
        assert(path@ =~= ("/").spec_bytes() + name.spec_bytes());
    }
    Some((path, mime))
}

/// The body of a signals update, as the endpoint reads it after JSON
/// decoding.
#[derive(Debug)]
pub struct PostSignalsRequest {
    pub signal_ids: Vec<u32>,
    pub states: Vec<u16>,
    pub start_time_90k: Option<i64>,
    pub end_base: PostSignalsEndBase,
    pub rel_end_time_90k: Option<i64>,
}

/// What the end of a signals update is relative to.
#[derive(Clone, Copy, Debug, PartialEq, Eq, Structural)]
pub enum PostSignalsEndBase {
    Epoch,
    Now,
}

/// Decides a signals update: the window to apply, given the server's
/// current time. Needs `update_signals`; with `epoch` the relative end is
/// required and absolute, with `now` it is an offset from now (default 0)
/// that must stay in range.
pub fn post_signals_plan(perms: &Permissions, req: &PostSignalsRequest, now_90k: i64) -> (r:
    Result<(i64, i64), Reply>)
    ensures
        if !perms.update_signals {
            r matches Err(e) && is_plain(e, 401, ("update_signals required").spec_bytes())
        } else {
            let start = match req.start_time_90k {
                Option::Some(t) => t as int,
                Option::None => now_90k as int,
            };
            match req.end_base {
                PostSignalsEndBase::Epoch => match req.rel_end_time_90k {
                    Option::Some(e) => r == Ok::<(i64, i64), Reply>((start as i64, e)),
                    Option::None => r matches Err(e) && is_plain(
                        e,
                        400,
                        ("must specify rel_end_time_90k when end_base is epoch").spec_bytes(),
                    ),
                },
                PostSignalsEndBase::Now => {
                    let rel = match req.rel_end_time_90k {
                        Option::Some(e) => e as int,
                        Option::None => 0,
                    };
                    if i64::MIN <= now_90k + rel <= i64::MAX {
                        r == Ok::<(i64, i64), Reply>((start as i64, (now_90k + rel) as i64))
                    } else {
                        r matches Err(e) && is_plain(
                            e,
                            400,
                            ("end time out of range").spec_bytes(),
                        )
                    }
                },
            }
        },
{
    if !perms.update_signals {
        return Err(plain_response_str(401, "update_signals required"));
    }
    let start = match req.start_time_90k {
        Option::Some(t) => t,
        Option::None => now_90k,
    };
    let end = match req.end_base {
        PostSignalsEndBase::Epoch => match req.rel_end_time_90k {
            Option::Some(e) => e,
            Option::None => {
                return Err(
                    plain_response_str(400, "must specify rel_end_time_90k when end_base is epoch"),
                );
            },
        },
        PostSignalsEndBase::Now => {
            let rel = match req.rel_end_time_90k {
                Option::Some(e) => e,
                Option::None => 0,
            };
            match now_90k.checked_add(rel) {
                Option::Some(e) => e,
                Option::None => {
                    return Err(plain_response_str(400, "end time out of range"));
                },
            }
        },
    };
    Ok((start, end))
}

/// One signal state change as the database reports it.
#[derive(Clone, Copy, Debug, PartialEq, Eq, Structural)]
pub struct SignalChangeRow {
    pub when_90k: i64,
    pub signal: u32,
    pub state: u16,
}

/// The parallel arrays the signals endpoint serves.
#[derive(Debug, PartialEq, Eq)]
pub struct Signals {
    pub times_90k: Vec<i64>,
    pub signal_ids: Vec<u32>,
    pub states: Vec<u16>,
}

/// Lays state changes out as parallel arrays, in the rows' order.
pub fn signals_from_rows(rows: &Vec<SignalChangeRow>) -> (s: Signals)
    ensures
        s.times_90k@.len() == rows@.len(),
        s.signal_ids@.len() == rows@.len(),
        s.states@.len() == rows@.len(),
        forall|i: int| 0 <= i < rows@.len() ==> s.times_90k@[i] == (#[trigger] rows@[i]).when_90k
            && s.signal_ids@[i] == rows@[i].signal && s.states@[i] == rows@[i].state,
{
    let mut s = Signals { times_90k: Vec::new(), signal_ids: Vec::new(), states: Vec::new() };
    let mut i: usize = 0;
    while i < rows.len()
        invariant
            0 <= i <= rows@.len(),
            s.times_90k@.len() == i,
            s.signal_ids@.len() == i,
            s.states@.len() == i,
            forall|j: int| 0 <= j < i ==> s.times_90k@[j] == (#[trigger] rows@[j]).when_90k
                && s.signal_ids@[j] == rows@[j].signal && s.states@[j] == rows@[j].state,
        decreases rows@.len() - i,
    {
        s.times_90k.push(rows[i].when_90k);
        s.signal_ids.push(rows[i].signal);
        s.states.push(rows[i].state);
        i += 1;
    }
    s
}

/// The file builder refuses an assembly without any video samples: a view
/// request whose selections trimmed to nothing (or that had none) is the
/// caller's error.
pub fn check_view_has_samples(append_count: usize) -> (r: Option<Reply>)
    ensures
        if append_count == 0 {
            r matches Some(e) && is_plain(e, 400, ("no video samples").spec_bytes())
        } else {
            r is None
        },
{
    if append_count == 0 {
        Some(plain_response_str(400, "no video samples"))
    } else {
        None
    }
}

/// The diagnostic echo body: server time, host, client address, user
/// agent, and whether the request counted as secure.
pub open spec fn spec_request_echo(
    when_sec: int,
    host: Option<Seq<u8>>,
    addr: Option<Seq<u8>>,
    user_agent: Option<Seq<u8>>,
    secure: bool,
) -> Seq<u8> {
    ("when: ").spec_bytes() + spec_i64_digits(when_sec) + ("\nhost: ").spec_bytes() + spec_opt_echo(
        host,
    ) + ("\naddr: ").spec_bytes() + spec_opt_echo(addr) + ("\nuser_agent: ").spec_bytes()
        + spec_opt_echo(user_agent) + ("\nsecure: ").spec_bytes() + (if secure {
        ("true").spec_bytes()
    } else {
        ("false").spec_bytes()
    })
}

pub open spec fn spec_opt_echo(v: Option<Seq<u8>>) -> Seq<u8> {
    match v {
        Option::Some(b) => b,
        Option::None => ("none").spec_bytes(),
    }
}

pub fn request_echo(
    when_sec: i64,
    host: Option<&[u8]>,
    addr: Option<&[u8]>,
    user_agent: Option<&[u8]>,
    secure: bool,
) -> (r: Vec<u8>)
    ensures
        r@ == spec_request_echo(
            when_sec as int,
            spec_opt_bytes(host),
            spec_opt_bytes(addr),
            spec_opt_bytes(user_agent),
            secure,
        ),
{
    let mut out = "when: ".as_bytes_vec();
    let mut part = format_i64(when_sec);
    out.append(&mut part);
    let mut part = "\nhost: ".as_bytes_vec();
    out.append(&mut part);
    let mut part = opt_echo(host);
    out.append(&mut part);
    let mut part = "\naddr: ".as_bytes_vec();
    out.append(&mut part);
    let mut part = opt_echo(addr);
    out.append(&mut part);
    let mut part = "\nuser_agent: ".as_bytes_vec();
    out.append(&mut part);
    let mut part = opt_echo(user_agent);
    out.append(&mut part);
    let mut part = "\nsecure: ".as_bytes_vec();
    out.append(&mut part);
    let mut part = if secure {
        "true".as_bytes_vec()
    } else {
        "false".as_bytes_vec()
    };
    out.append(&mut part);
    proof {
        assert(out@ =~= spec_request_echo(
            when_sec as int,
            spec_opt_bytes(host),
            spec_opt_bytes(addr),
            spec_opt_bytes(user_agent),
            secure,
        ));
    }
    out
}

fn opt_echo(v: Option<&[u8]>) -> (r: Vec<u8>)
    ensures
        r@ == spec_opt_echo(spec_opt_bytes(v)),
{
    match v {
        Option::Some(b) => slice_to_vec(b),
        Option::None => "none".as_bytes_vec(),
    }
}

} // verus!
