//! The path router: a pure total function from a request path to a typed
//! route. API routes live under `/api/`; everything else is served as a
//! static asset.

use vstd::prelude::*;
use vstd::slice::slice_subrange;
use vstd::string::{StrSliceExecFns, StringSliceAdditionalSpecFns};

use crate::bytes::{bytes_eq, bytes_ends_with, bytes_starts_with, ends_with, find_byte_from,
    find_from, starts_with};
use crate::hex::{all_lower_hex, dehex20, dehexed};
use crate::outside::{parse_uuid, uuid_bytes_of};
use crate::types::{spec_parse_stream_type, StreamType, Uuid};

verus! {

/// A decoded request path.
#[derive(Debug, PartialEq, Eq)]
pub enum Path {
    TopLevel,
    Request,
    InitSegment([u8; 20], bool),
    Camera(Uuid),
    Signals,
    StreamRecordings(Uuid, StreamType),
    StreamViewMp4(Uuid, StreamType, bool),
    StreamViewMp4Segment(Uuid, StreamType, bool),
    StreamLiveMp4Segments(Uuid, StreamType),
    Login,
    Logout,
    Static,
    NotFound,
}

/// The route denoted by the path `p` is `r`.
pub open spec fn decodes_to(p: Seq<u8>, r: Path) -> bool {
    if !starts_with(p, ("/api/").spec_bytes()) {
        r == Path::Static
    } else {
        api_decodes_to(p.skip(4), r)
    }
}

/// `p` is the path after the `/api` prefix.
pub open spec fn api_decodes_to(p: Seq<u8>, r: Path) -> bool {
    if p == ("/").spec_bytes() {
        r == Path::TopLevel
    } else if p == ("/login").spec_bytes() {
        r == Path::Login
    } else if p == ("/logout").spec_bytes() {
        r == Path::Logout
    } else if p == ("/request").spec_bytes() {
        r == Path::Request
    } else if p == ("/signals").spec_bytes() {
        r == Path::Signals
    } else if starts_with(p, ("/init/").spec_bytes()) {
        init_decodes_to(p, r)
    } else if !starts_with(p, ("/cameras/").spec_bytes()) {
        r == Path::NotFound
    } else {
        camera_decodes_to(p.skip(9), r)
    }
}

/// `p` starts with `/init/`; the expected shape is `/init/<40 hex>.mp4`,
/// with an optional `.txt` suffix selecting the debug dump.
pub open spec fn init_decodes_to(p: Seq<u8>, r: Path) -> bool {
    let debug = ends_with(p, (".txt").spec_bytes());
    let q = if debug {
        p.take(p.len() - 4)
    } else {
        p
    };
    if q.len() != 50 || !ends_with(q, (".mp4").spec_bytes()) {
        r == Path::NotFound
    } else if all_lower_hex(q.subrange(6, 46)) {
        r matches Path::InitSegment(h, d) && h@ == dehexed(q.subrange(6, 46)) && d == debug
    } else {
        r == Path::NotFound
    }
}

/// `p` is the path after `/cameras/`: a UUID segment, then optionally a
/// stream type and an action.
pub open spec fn camera_decodes_to(p: Seq<u8>, r: Path) -> bool {
    match find_from(p, 0, 47) {
        Option::None => r == Path::NotFound,
        Option::Some(s1) => match uuid_bytes_of(p.subrange(0, s1)) {
            Option::None => r == Path::NotFound,
            Option::Some(b) => camera_rest_decodes_to(b, p.skip(s1 + 1), r),
        },
    }
}

pub open spec fn camera_rest_decodes_to(b: Seq<u8>, rest: Seq<u8>, r: Path) -> bool {
    if rest.len() == 0 {
        r matches Path::Camera(u) && u.bytes@ == b
    } else {
        match find_from(rest, 0, 47) {
            Option::None => r == Path::NotFound,
            Option::Some(s2) => match spec_parse_stream_type(rest.subrange(0, s2)) {
                Option::None => r == Path::NotFound,
                Option::Some(t) => action_decodes_to(b, t, rest.skip(s2), r),
            },
        }
    }
}

pub open spec fn action_decodes_to(b: Seq<u8>, t: StreamType, act: Seq<u8>, r: Path) -> bool {
    if act == ("/recordings").spec_bytes() {
        r matches Path::StreamRecordings(u, tt) && u.bytes@ == b && tt == t
    } else if act == ("/view.mp4").spec_bytes() {
        r matches Path::StreamViewMp4(u, tt, d) && u.bytes@ == b && tt == t && d == false
    } else if act == ("/view.mp4.txt").spec_bytes() {
        r matches Path::StreamViewMp4(u, tt, d) && u.bytes@ == b && tt == t && d == true
    } else if act == ("/view.m4s").spec_bytes() {
        r matches Path::StreamViewMp4Segment(u, tt, d) && u.bytes@ == b && tt == t && d == false
    } else if act == ("/view.m4s.txt").spec_bytes() {
        r matches Path::StreamViewMp4Segment(u, tt, d) && u.bytes@ == b && tt == t && d == true
    } else if act == ("/live.m4s").spec_bytes() {
        r matches Path::StreamLiveMp4Segments(u, tt) && u.bytes@ == b && tt == t
    } else {
        r == Path::NotFound
    }
}

impl Path {
    /// Decodes a request path. Total: every path yields exactly one route.
    pub fn decode(path: &str) -> (r: Path)
        ensures
            decodes_to(path.spec_bytes(), r),
    {
        let p0 = path.as_bytes();
        if !bytes_starts_with(p0, "/api/".as_bytes()) {
            return Path::Static;
        }
        proof {
            reveal_strlit("/api/");
            assert(vstd::utf8::is_ascii_chars(("/api/")@));
            vstd::utf8::is_ascii_chars_encode_utf8(("/api/")@);
            assert(("/api/").spec_bytes().len() == 5);
        }
        let p = slice_subrange(p0, 4, p0.len());
        proof {
            assert(p@ =~= p0@.skip(4));
        }
        if bytes_eq(p, "/".as_bytes()) {
            return Path::TopLevel;
        }
        if bytes_eq(p, "/login".as_bytes()) {
            return Path::Login;
        }
        if bytes_eq(p, "/logout".as_bytes()) {
            return Path::Logout;
        }
        if bytes_eq(p, "/request".as_bytes()) {
            return Path::Request;
        }
        if bytes_eq(p, "/signals".as_bytes()) {
            return Path::Signals;
        }
        if bytes_starts_with(p, "/init/".as_bytes()) {
            return Path::decode_init(p);
        }
        if !bytes_starts_with(p, "/cameras/".as_bytes()) {
            return Path::NotFound;
        }
        proof {
            reveal_strlit("/cameras/");
            assert(vstd::utf8::is_ascii_chars(("/cameras/")@));
            vstd::utf8::is_ascii_chars_encode_utf8(("/cameras/")@);
            assert(("/cameras/").spec_bytes().len() == 9);
        }
        let q = slice_subrange(p, 9, p.len());
        proof {
            assert(q@ =~= p@.skip(9));
        }
        let s1 = match find_byte_from(q, 0, 47) {
            Option::None => {
                return Path::NotFound;
            },
            Option::Some(s) => s,
        };
        let useg = slice_subrange(q, 0, s1);
        let rest = slice_subrange(q, s1 + 1, q.len());
        proof {
            assert(rest@ =~= q@.skip(s1 + 1));
        }
        let ub = match parse_uuid(useg) {
            Option::None => {
                return Path::NotFound;
            },
            Option::Some(b) => b,
        };
        let u = Uuid { bytes: ub };
        if rest.len() == 0 {
            return Path::Camera(u);
        }
        let s2 = match find_byte_from(rest, 0, 47) {
            Option::None => {
                return Path::NotFound;
            },
            Option::Some(s) => s,
        };
        let tyseg = slice_subrange(rest, 0, s2);
        let act = slice_subrange(rest, s2, rest.len());
        proof {
            assert(act@ =~= rest@.skip(s2 as int));
        }
        let t = match StreamType::parse(tyseg) {
            Option::None => {
                return Path::NotFound;
            },
            Option::Some(t) => t,
        };
        if bytes_eq(act, "/recordings".as_bytes()) {
            return Path::StreamRecordings(u, t);
        }
        if bytes_eq(act, "/view.mp4".as_bytes()) {
            return Path::StreamViewMp4(u, t, false);
        }
        if bytes_eq(act, "/view.mp4.txt".as_bytes()) {
            return Path::StreamViewMp4(u, t, true);
        }
        if bytes_eq(act, "/view.m4s".as_bytes()) {
            return Path::StreamViewMp4Segment(u, t, false);
        }
        if bytes_eq(act, "/view.m4s.txt".as_bytes()) {
            return Path::StreamViewMp4Segment(u, t, true);
        }
        if bytes_eq(act, "/live.m4s".as_bytes()) {
            return Path::StreamLiveMp4Segments(u, t);
        }
        Path::NotFound
    }

    /// `p` is the path after `/api`, starting with `/init/`.
    fn decode_init(p: &[u8]) -> (r: Path)
        requires
            starts_with(p@, ("/init/").spec_bytes()),
        ensures
            init_decodes_to(p@, r),
    {
        proof {
            reveal_strlit(".txt");
            assert(vstd::utf8::is_ascii_chars((".txt")@));
            vstd::utf8::is_ascii_chars_encode_utf8((".txt")@);
            assert((".txt").spec_bytes().len() == 4);
        }
        let (debug, q) = if bytes_ends_with(p, ".txt".as_bytes()) {
            let q = slice_subrange(p, 0, p.len() - 4);
            proof {
                assert(q@ =~= p@.take(p@.len() - 4));
            }
            (true, q)
        } else {
            (false, p)
        };
        if q.len() != 50 || !bytes_ends_with(q, ".mp4".as_bytes()) {
            return Path::NotFound;
        }
        let hexpart = slice_subrange(q, 6, 46);
        match dehex20(hexpart) {
            Option::Some(h) => Path::InitSegment(h, debug),
            Option::None => Path::NotFound,
        }
    }
}

/// Routes a caller may reach without a session: diagnostics, login and
/// logout themselves, static assets, and unknown paths.
pub open spec fn spec_allows_unauthenticated(p: Path) -> bool {
    match p {
        Path::NotFound => true,
        Path::Request => true,
        Path::Login => true,
        Path::Logout => true,
        Path::Static => true,
        _ => false,
    }
}

/// Responses that must carry `Cache-Control: private`: everything but
/// static assets.
pub open spec fn spec_is_private(p: Path) -> bool {
    !(p matches Path::Static)
}

impl Path {
    pub fn allows_unauthenticated(&self) -> (r: bool)
        ensures
            r == spec_allows_unauthenticated(*self),
    {
        match *self {
            Path::NotFound => true,
            Path::Request => true,
            Path::Login => true,
            Path::Logout => true,
            Path::Static => true,
            _ => false,
        }
    }

    pub fn is_private(&self) -> (r: bool)
        ensures
            r == spec_is_private(*self),
    {
        match *self {
            Path::Static => false,
            _ => true,
        }
    }
}

/// Router totality: every path denotes exactly one route; the `/api/`
/// prefix is required for API routes, and every non-API path is `Static`.
pub proof fn lemma_router_totality(p: Seq<u8>, r1: Path, r2: Path)
    requires
        decodes_to(p, r1),
        decodes_to(p, r2),
    ensures
        r1 == r2,
        (r1 == Path::Static) <==> !starts_with(p, ("/api/").spec_bytes()),
{
    broadcast use vstd::array::group_array_axioms;

    if starts_with(p, ("/api/").spec_bytes()) {
        let q = p.skip(4);
        lemma_api_not_static(q, r1);
        lemma_api_not_static(q, r2);
        lemma_api_unique(q, r1, r2);
    }
}

proof fn lemma_api_not_static(q: Seq<u8>, r: Path)
    requires
        api_decodes_to(q, r),
    ensures
        r != Path::Static,
{
}

proof fn lemma_api_unique(q: Seq<u8>, r1: Path, r2: Path)
    requires
        api_decodes_to(q, r1),
        api_decodes_to(q, r2),
    ensures
        r1 == r2,
{
    broadcast use vstd::array::group_array_axioms;

    if q == ("/").spec_bytes() || q == ("/login").spec_bytes() || q == ("/logout").spec_bytes()
        || q == ("/request").spec_bytes() || q == ("/signals").spec_bytes() {
    } else if starts_with(q, ("/init/").spec_bytes()) {
        match (r1, r2) {
            (Path::InitSegment(h1, d1), Path::InitSegment(h2, d2)) => {
                assert(h1@ == h2@);
                assert(h1 =~= h2);
            },
            _ => {},
        }
    } else {
        match (r1, r2) {
            (Path::Camera(u1), Path::Camera(u2)) => {
                assert(u1.bytes@ == u2.bytes@);
                assert(u1.bytes =~= u2.bytes);
            },
            (Path::StreamRecordings(u1, t1), Path::StreamRecordings(u2, t2)) => {
                assert(u1.bytes@ == u2.bytes@);
                assert(u1.bytes =~= u2.bytes);
            },
            (Path::StreamViewMp4(u1, t1, d1), Path::StreamViewMp4(u2, t2, d2)) => {
                assert(u1.bytes@ == u2.bytes@);
                assert(u1.bytes =~= u2.bytes);
            },
            (Path::StreamViewMp4Segment(u1, t1, d1), Path::StreamViewMp4Segment(u2, t2, d2)) => {
                assert(u1.bytes@ == u2.bytes@);
                assert(u1.bytes =~= u2.bytes);
            },
            (Path::StreamLiveMp4Segments(u1, t1), Path::StreamLiveMp4Segments(u2, t2)) => {
                assert(u1.bytes@ == u2.bytes@);
                assert(u1.bytes =~= u2.bytes);
            },
            _ => {},
        }
    }
}

} // verus!
