//! Shared plain types: camera UUIDs, stream types, permission sets, error
//! kinds with their HTTP statuses, and the `Reply` value handlers produce.

use vstd::prelude::*;
use vstd::string::{StrSliceExecFns, StringSliceAdditionalSpecFns};

verus! {

/// A camera identifier: the 16 bytes of its UUID.
#[derive(Clone, Copy, Debug, PartialEq, Eq)]
pub struct Uuid {
    pub bytes: [u8; 16],
}

impl Uuid {
    pub fn from_bytes(bytes: [u8; 16]) -> (r: Uuid)
        ensures
            r.bytes == bytes,
    {
        Uuid { bytes }
    }
}

/// The two feeds of a camera.
#[derive(Clone, Copy, Debug, PartialEq, Eq, Structural)]
pub enum StreamType {
    Main,
    Sub,
}

pub open spec fn spec_parse_stream_type(s: Seq<u8>) -> Option<StreamType> {
    if s == ("main").spec_bytes() {
        Some(StreamType::Main)
    } else if s == ("sub").spec_bytes() {
        Some(StreamType::Sub)
    } else {
        None
    }
}

impl StreamType {
    pub fn parse(s: &[u8]) -> (r: Option<StreamType>)
        ensures
            r == spec_parse_stream_type(s@),
    {
        if crate::bytes::bytes_eq(s, "main".as_bytes()) {
            Some(StreamType::Main)
        } else if crate::bytes::bytes_eq(s, "sub".as_bytes()) {
            Some(StreamType::Sub)
        } else {
            None
        }
    }

    /// Index of this stream within a camera's stream table.
    pub fn index(self) -> (r: usize)
        ensures
            r == spec_stream_index(self),
    {
        match self {
            StreamType::Main => 0,
            StreamType::Sub => 1,
        }
    }
}

pub open spec fn spec_stream_index(t: StreamType) -> int {
    match t {
        StreamType::Main => 0,
        StreamType::Sub => 1,
    }
}

/// The permissions a caller can hold.
#[derive(Clone, Copy, Debug, PartialEq, Eq, Structural)]
pub struct Permissions {
    pub view_video: bool,
    pub read_camera_configs: bool,
    pub update_signals: bool,
}

impl Permissions {
    /// The empty permission set.
    pub fn none() -> (r: Permissions)
        ensures
            !r.view_video,
            !r.read_camera_configs,
            !r.update_signals,
    {
        Permissions { view_video: false, read_camera_configs: false, update_signals: false }
    }
}

/// Failure categories, each carrying its HTTP status.
#[derive(Clone, Copy, Debug, PartialEq, Eq, Structural)]
pub enum ErrorKind {
    Unauthenticated,
    PermissionDenied,
    InvalidArgument,
    NotFound,
    MethodNotAllowed,
    FailedPrecondition,
    Internal,
}

pub open spec fn spec_status_for(k: ErrorKind) -> u16 {
    match k {
        ErrorKind::Unauthenticated => 401,
        ErrorKind::PermissionDenied => 401,
        ErrorKind::InvalidArgument => 400,
        ErrorKind::NotFound => 404,
        ErrorKind::MethodNotAllowed => 405,
        ErrorKind::FailedPrecondition => 412,
        ErrorKind::Internal => 500,
    }
}

/// HTTP status for an error kind.
pub fn status_for(k: ErrorKind) -> (s: u16)
    ensures
        s == spec_status_for(k),
{
    match k {
        ErrorKind::Unauthenticated => 401,
        ErrorKind::PermissionDenied => 401,
        ErrorKind::InvalidArgument => 400,
        ErrorKind::NotFound => 404,
        ErrorKind::MethodNotAllowed => 405,
        ErrorKind::FailedPrecondition => 412,
        ErrorKind::Internal => 500,
    }
}

/// A computed HTTP response: status, headers, body. The transport layer
/// turns this into a wire response unchanged.
#[derive(Debug)]
pub struct Reply {
    pub status: u16,
    pub headers: Vec<(Vec<u8>, Vec<u8>)>,
    pub body: Vec<u8>,
}

/// `r` is a plain-text response with the given status and body.
pub open spec fn is_plain(r: Reply, status: u16, body: Seq<u8>) -> bool {
    &&& r.status == status
    &&& r.headers@.len() == 1
    &&& r.headers@[0].0@ == ("Content-Type").spec_bytes()
    &&& r.headers@[0].1@ == ("text/plain").spec_bytes()
    &&& r.body@ == body
}

pub fn plain_response(status: u16, body: Vec<u8>) -> (r: Reply)
    ensures
        is_plain(r, status, body@),
{
    let mut headers: Vec<(Vec<u8>, Vec<u8>)> = Vec::new();
    headers.push(("Content-Type".as_bytes_vec(), "text/plain".as_bytes_vec()));
    Reply { status, headers, body }
}

pub fn plain_response_str(status: u16, body: &str) -> (r: Reply)
    ensures
        is_plain(r, status, body.spec_bytes()),
{
    plain_response(status, body.as_bytes_vec())
}

pub fn not_found(body: &str) -> (r: Reply)
    ensures
        is_plain(r, 404, body.spec_bytes()),
{
    plain_response_str(404, body)
}

pub fn bad_req(body: &str) -> (r: Reply)
    ensures
        is_plain(r, 400, body.spec_bytes()),
{
    plain_response_str(400, body)
}

pub fn internal_server_err(body: &str) -> (r: Reply)
    ensures
        is_plain(r, 500, body.spec_bytes()),
{
    plain_response_str(500, body)
}

/// A plain-text response for a categorized error, as the error middleware
/// produces for every failing handler.
pub fn error_reply(k: ErrorKind, body: Vec<u8>) -> (r: Reply)
    ensures
        is_plain(r, spec_status_for(k), body@),
{
    plain_response(status_for(k), body)
}

} // verus!
