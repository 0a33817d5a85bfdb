//! Cookie sessions: the session table with login, lookup and revocation;
//! extraction of the `s=` cookie from a `Cookie` header; CSRF comparison;
//! and the `Set-Cookie` values the login and logout endpoints emit.
//!
//! A session is identified by a 48-byte random id handed to the client in
//! unpadded base64; the table stores only its SHA-256 hash. A session is
//! valid exactly when its hash is stored, it is not revoked, and its user
//! is enabled.

use vstd::prelude::*;
use vstd::slice::slice_subrange;
use vstd::string::{StrSliceExecFns, StringSliceAdditionalSpecFns};
use vstd::utf8::encode_utf8;

use crate::bytes::{bytes_eq, find_byte_from, find_from};
use crate::outside::{b64_nopad_of, base64_decode_nopad, base64_encode_nopad, constant_time_eq,
    fill_random, sha256, sha256_of};
use crate::types::{ErrorKind, Permissions};

verus! {

/// The context of one authenticating request: wall-clock seconds, the
/// client address as reported, and the raw `User-Agent`.
#[derive(Debug)]
pub struct AuthReq {
    pub when_sec: Option<i64>,
    pub addr: Option<Vec<u8>>,
    pub user_agent: Option<Vec<u8>>,
}

/// A stored session: the hash of its id, its raw CSRF token, its owner,
/// the permissions granted at login, the cookie domain, the request that
/// created it, and whether it has been revoked.
#[derive(Debug)]
pub struct SessionRecord {
    pub hash: Vec<u8>,
    pub csrf: Vec<u8>,
    pub username: String,
    pub permissions: Permissions,
    pub domain: Vec<u8>,
    pub created: AuthReq,
    pub revoked: bool,
}

/// A user that may log in.
#[derive(Debug)]
pub struct User {
    pub username: String,
    pub password: String,
    pub enabled: bool,
    pub permissions: Permissions,
}

/// The session side of the database: users and their sessions.
#[derive(Debug)]
pub struct SessionStore {
    pub users: Vec<User>,
    pub sessions: Vec<SessionRecord>,
}

/// What the authenticated caller carries into a handler.
#[derive(Debug)]
pub struct SessionInfo {
    pub username: String,
    pub csrf: Vec<u8>,
}

#[derive(Debug)]
pub struct Caller {
    pub permissions: Permissions,
    pub session: Option<SessionInfo>,
}

/// Index of the first session whose hash is `hash`.
pub open spec fn spec_find_session(sessions: Seq<SessionRecord>, hash: Seq<u8>, i: int) -> Option<
    int,
>
    decreases sessions.len() - i,
{
    if i < 0 || i >= sessions.len() {
        None
    } else if sessions[i].hash@ == hash {
        Some(i)
    } else {
        spec_find_session(sessions, hash, i + 1)
    }
}

/// Index of the first user with the given name (as UTF-8 bytes).
pub open spec fn spec_find_user(users: Seq<User>, name: Seq<u8>, i: int) -> Option<int>
    decreases users.len() - i,
{
    if i < 0 || i >= users.len() {
        None
    } else if encode_utf8(users[i].username@) == name {
        Some(i)
    } else {
        spec_find_user(users, name, i + 1)
    }
}

/// The session record that authenticates `hash`: stored, not revoked, and
/// owned by an enabled user.
pub open spec fn spec_authenticate(
    users: Seq<User>,
    sessions: Seq<SessionRecord>,
    hash: Seq<u8>,
) -> Option<int> {
    match spec_find_session(sessions, hash, 0) {
        Option::None => None,
        Option::Some(k) => if sessions[k].revoked {
            None
        } else {
            match spec_find_user(users, encode_utf8(sessions[k].username@), 0) {
                Option::None => None,
                Option::Some(u) => if users[u].enabled {
                    Some(k)
                } else {
                    None
                },
            }
        },
    }
}

/// Whether a login attempt is accepted: the named user exists, is
/// enabled, and has exactly this password.
pub open spec fn spec_login_accepts(store: SessionStore, uname: Seq<u8>, pword: Seq<u8>) -> bool {
    match spec_find_user(store.users@, uname, 0) {
        Option::Some(u) => store.users@[u].enabled && encode_utf8(store.users@[u].password@)
            == pword,
        Option::None => false,
    }
}

/// The store after a successful login: one fresh unrevoked session holding
/// the hash of `sid`, a 24-byte CSRF token, and the user's name and
/// permissions; everything else untouched.
pub open spec fn spec_login_ok(
    pre: SessionStore,
    post: SessionStore,
    uname: Seq<u8>,
    domain: Seq<u8>,
    created: AuthReq,
    sid: Seq<u8>,
) -> bool {
    let u = spec_find_user(pre.users@, uname, 0)->0;
    &&& post.users@ == pre.users@
    &&& post.sessions@.len() == pre.sessions@.len() + 1
    &&& forall|i: int| 0 <= i < pre.sessions@.len() ==> post.sessions@[i] == pre.sessions@[i]
    &&& post.sessions@.last().hash@ == sha256_of(sid)
    &&& post.sessions@.last().csrf@.len() == 24
    &&& post.sessions@.last().username@ == pre.users@[u].username@
    &&& post.sessions@.last().permissions == pre.users@[u].permissions
    &&& post.sessions@.last().domain@ == domain
    &&& post.sessions@.last().created == created
    &&& !post.sessions@.last().revoked
}

fn zero_vec(n: usize) -> (r: Vec<u8>)
    ensures
        r@.len() == n,
{
    let mut v: Vec<u8> = Vec::new();
    while v.len() < n
        invariant
            v@.len() <= n,
        decreases n - v@.len(),
    {
        v.push(0);
    }
    v
}

fn find_user_exec(users: &Vec<User>, name: &[u8]) -> (r: Option<usize>)
    ensures
        match r {
            Some(u) => u < users@.len() && spec_find_user(users@, name@, 0) == Some(u as int),
            None => spec_find_user(users@, name@, 0) is None,
        },
{
    let mut i: usize = 0;
    while i < users.len()
        invariant
            0 <= i <= users@.len(),
            spec_find_user(users@, name@, 0) == spec_find_user(users@, name@, i as int),
        decreases users@.len() - i,
    {
        if bytes_eq(users[i].username.as_str().as_bytes(), name) {
            return Some(i);
        }
        i += 1;
    }
    None
}

/// One session after revocation of `hash`: unchanged, except that a
/// matching hash forces the revoked flag.
pub open spec fn spec_revoked_at(o: SessionRecord, n: SessionRecord, hash: Seq<u8>) -> bool {
    &&& n.hash@ == o.hash@
    &&& n.csrf@ == o.csrf@
    &&& n.username@ == o.username@
    &&& n.permissions == o.permissions
    &&& n.domain@ == o.domain@
    &&& n.created == o.created
    &&& n.revoked == (o.revoked || o.hash@ == hash)
}

fn find_session_exec(sessions: &Vec<SessionRecord>, hash: &[u8]) -> (r: Option<usize>)
    ensures
        match r {
            Some(k) => k < sessions@.len() && spec_find_session(sessions@, hash@, 0) == Some(
                k as int,
            ),
            None => spec_find_session(sessions@, hash@, 0) is None,
        },
{
    let mut i: usize = 0;
    while i < sessions.len()
        invariant
            0 <= i <= sessions@.len(),
            spec_find_session(sessions@, hash@, 0) == spec_find_session(
                sessions@,
                hash@,
                i as int,
            ),
        decreases sessions@.len() - i,
    {
        if bytes_eq(sessions[i].hash.as_slice(), hash) {
            return Some(i);
        }
        i += 1;
    }
    None
}

impl SessionStore {
    /// An empty store: no users, no sessions.
    pub fn new() -> (r: SessionStore)
        ensures
            r.users@.len() == 0,
            r.sessions@.len() == 0,
    {
        SessionStore { users: Vec::new(), sessions: Vec::new() }
    }

    /// Adds an enabled user.
    pub fn add_user(&mut self, username: String, password: String, permissions: Permissions)
        ensures
            final(self).users@.len() == old(self).users@.len() + 1,
            final(self).users@.last().username@ == username@,
            final(self).users@.last().password@ == password@,
            final(self).users@.last().enabled,
            final(self).users@.last().permissions == permissions,
            forall|i: int| 0 <= i < old(self).users@.len() ==> final(self).users@[i]
                == old(self).users@[i],
            final(self).sessions@ == old(self).sessions@,
    {
        self.users.push(User { username, password, enabled: true, permissions });
    }

    /// Password login: on a matching enabled user, mints a fresh 48-byte
    /// session id, stores its hash with a fresh 24-byte CSRF token and the
    /// user's permissions, and returns the raw id. Fails with
    /// `Unauthenticated` on a wrong name or password or a disabled user,
    /// and with `Internal` only if no randomness could be drawn.
    pub fn login_by_password(
        &mut self,
        username: &str,
        password: &str,
        domain: Vec<u8>,
        authreq: AuthReq,
    ) -> (r: Result<Vec<u8>, ErrorKind>)
        ensures
            match r {
                Ok(sid) => {
                    &&& spec_login_accepts(*old(self), username.spec_bytes(), password.spec_bytes())
                    &&& sid@.len() == 48
                    &&& spec_login_ok(
                        *old(self),
                        *final(self),
                        username.spec_bytes(),
                        domain@,
                        authreq,
                        sid@,
                    )
                },
                Err(k) => {
                    &&& *final(self) == *old(self)
                    &&& (k == ErrorKind::Unauthenticated || k == ErrorKind::Internal)
                    &&& (k == ErrorKind::Unauthenticated <==> !spec_login_accepts(
                        *old(self),
                        username.spec_bytes(),
                        password.spec_bytes(),
                    ))
                },
            },
    {
        let u = match find_user_exec(&self.users, username.as_bytes()) {
            Option::Some(u) => u,
            Option::None => {
                return Err(ErrorKind::Unauthenticated);
            },
        };
        if !self.users[u].enabled {
            return Err(ErrorKind::Unauthenticated);
        }
        if !constant_time_eq(self.users[u].password.as_str().as_bytes(), password.as_bytes()) {
            return Err(ErrorKind::Unauthenticated);
        }
        let mut sid = zero_vec(48);
        if !fill_random(&mut sid) {
            return Err(ErrorKind::Internal);
        }
        let mut csrf = zero_vec(24);
        if !fill_random(&mut csrf) {
            return Err(ErrorKind::Internal);
        }
        let hash = sha256(sid.as_slice());
        let username_owned = self.users[u].username.clone();
        let permissions = self.users[u].permissions;
        self.sessions.push(
            SessionRecord {
                hash,
                csrf,
                username: username_owned,
                permissions,
                domain,
                created: authreq,
                revoked: false,
            },
        );
        Ok(sid)
    }

    /// Looks a session hash up; `Some` exactly for a stored, unrevoked
    /// session of an enabled user, returning its permissions, owner and
    /// raw CSRF token.
    pub fn authenticate_session(&self, hash: &[u8]) -> (r: Option<(Permissions, SessionInfo)>)
        ensures
            match r {
                Some(pi) => {
                    &&& spec_authenticate(self.users@, self.sessions@, hash@) matches Some(k)
                    &&& pi.0 == self.sessions@[spec_authenticate(
                        self.users@,
                        self.sessions@,
                        hash@,
                    )->0].permissions
                    &&& pi.1.username@ == self.sessions@[spec_authenticate(
                        self.users@,
                        self.sessions@,
                        hash@,
                    )->0].username@
                    &&& pi.1.csrf@ == self.sessions@[spec_authenticate(
                        self.users@,
                        self.sessions@,
                        hash@,
                    )->0].csrf@
                },
                None => spec_authenticate(self.users@, self.sessions@, hash@) is None,
            },
    {
        let k: usize = match find_session_exec(&self.sessions, hash) {
            Option::Some(k) => k,
            Option::None => {
                return None;
            },
        };
        let rec = &self.sessions[k];
        if rec.revoked {
            return None;
        }
        let u = match find_user_exec(&self.users, rec.username.as_str().as_bytes()) {
            Option::Some(u) => u,
            Option::None => {
                return None;
            },
        };
        if !self.users[u].enabled {
            return None;
        }
        let info = SessionInfo { username: rec.username.clone(), csrf: rec.csrf.clone() };
        proof {
            vstd::std_specs::vec::vec_clone_deep_view_proof::<u8, std::alloc::Global>(
                rec.csrf,
                info.csrf,
            );
            assert(info.csrf@ =~= rec.csrf@);
        }
        Some((rec.permissions, info))
    }

    /// Revokes every session with the given hash; everything else is kept.
    pub fn revoke_session(&mut self, hash: &[u8])
        ensures
            final(self).users@ == old(self).users@,
            final(self).sessions@.len() == old(self).sessions@.len(),
            forall|i: int| 0 <= i < old(self).sessions@.len() ==> spec_revoked_at(
                #[trigger] old(self).sessions@[i],
                final(self).sessions@[i],
                hash@,
            ),
    {
        let mut i: usize = 0;
        while i < self.sessions.len()
            invariant
                0 <= i <= self.sessions@.len(),
                self.users@ == old(self).users@,
                self.sessions@.len() == old(self).sessions@.len(),
                forall|j: int| i <= j < old(self).sessions@.len() ==> self.sessions@[j] == old(
                    self,
                ).sessions@[j],
                forall|j: int| 0 <= j < i ==> spec_revoked_at(
                    #[trigger] old(self).sessions@[j],
                    self.sessions@[j],
                    hash@,
                ),
            decreases self.sessions@.len() - i,
        {
            if bytes_eq(self.sessions[i].hash.as_slice(), hash) {
                self.sessions[i].revoked = true;
            }
            i += 1;
        }
    }
}

/// The authenticator's decision, given the extracted session id (if any),
/// the configured anonymous permissions, and whether the route tolerates
/// anonymity.
pub fn authenticate(
    store: &SessionStore,
    sid: Option<&Vec<u8>>,
    allow_unauthenticated: &Option<Permissions>,
    unauth_path: bool,
) -> (r: Result<Caller, ErrorKind>)
    ensures
        match sid {
            Some(sid) => match spec_authenticate(store.users@, store.sessions@, sha256_of(sid@)) {
                Some(k) => spec_caller_of(
                    r,
                    store.sessions@[k].permissions,
                    store.sessions@[k].username@,
                    store.sessions@[k].csrf@,
                ),
                None => spec_fallback(r, *allow_unauthenticated, unauth_path),
            },
            None => spec_fallback(r, *allow_unauthenticated, unauth_path),
        },
{
    match sid {
        Option::Some(sid) => {
            let hash = sha256(sid.as_slice());
            match store.authenticate_session(hash.as_slice()) {
                Option::Some((permissions, info)) => {
                    return Ok(Caller { permissions, session: Some(info) });
                },
                Option::None => {},
            }
        },
        Option::None => {},
    }
    match allow_unauthenticated {
        Option::Some(p) => Ok(Caller { permissions: *p, session: None }),
        Option::None => {
            if unauth_path {
                Ok(Caller { permissions: Permissions::none(), session: None })
            } else {
                Err(ErrorKind::Unauthenticated)
            }
        },
    }
}

/// `r` is an authenticated caller with exactly this session.
pub open spec fn spec_caller_of(
    r: Result<Caller, ErrorKind>,
    p: Permissions,
    uname: Seq<char>,
    csrf: Seq<u8>,
) -> bool {
    match r {
        Ok(c) => c.permissions == p && (match c.session {
            Option::Some(info) => info.username@ == uname && info.csrf@ == csrf,
            Option::None => false,
        }),
        Err(_) => false,
    }
}

/// The `s=` payload of one cookie entry: one leading space is trimmed,
/// then the `s=` prefix must follow.
pub open spec fn spec_seg_payload(seg: Seq<u8>) -> Option<Seq<u8>> {
    let t = if seg.len() > 0 && seg[0] == 32 {
        seg.skip(1)
    } else {
        seg
    };
    if t.len() >= 2 && t[0] == 115 && t[1] == 61 {
        Some(t.skip(2))
    } else {
        None
    }
}

/// The payload of the first `s=` cookie entry at or after `pos`, with
/// entries separated by `;`.
pub open spec fn spec_first_sid_payload_from(h: Seq<u8>, pos: int) -> Option<Seq<u8>>
    decreases h.len() - pos,
{
    if pos < 0 || pos > h.len() {
        None
    } else {
        match find_from(h, pos, 59) {
            Option::None => spec_seg_payload(h.subrange(pos, h.len() as int)),
            Option::Some(k) => if k < pos || k >= h.len() {
                None
            } else {
                match spec_seg_payload(h.subrange(pos, k)) {
                    Option::Some(p) => Some(p),
                    Option::None => spec_first_sid_payload_from(h, k + 1),
                }
            },
        }
    }
}

pub open spec fn spec_first_sid_payload(h: Seq<u8>) -> Option<Seq<u8>> {
    spec_first_sid_payload_from(h, 0)
}

/// Extracts the raw session id from a `Cookie` header: entries are split
/// on `;` and one leading space is trimmed; each `s=` entry is tried in
/// turn until one base64-decodes (without padding) to 48 bytes. Does not
/// authenticate.
pub fn extract_sid(cookie_header: &[u8]) -> (r: Option<Vec<u8>>)
    ensures
        match r {
            Some(sid) => sid@.len() == 48 && (forall|v: Seq<u8>| v.len() == 48
                && spec_first_sid_payload(cookie_header@) == Some(#[trigger] b64_nopad_of(v))
                ==> sid@ == v),
            None => forall|v: Seq<u8>| v.len() == 48 ==> spec_first_sid_payload(cookie_header@)
                != Some(#[trigger] b64_nopad_of(v)),
        },
{
    let h = cookie_header;
    let mut pos: usize = 0;
    loop
        invariant
            h@ == cookie_header@,
            0 <= pos <= h@.len(),
            spec_first_sid_payload(h@) == spec_first_sid_payload_from(h@, pos as int) || (forall|
                v: Seq<u8>,
            | v.len() == 48 ==> spec_first_sid_payload(h@) != Some(#[trigger] b64_nopad_of(v))),
        decreases h@.len() - pos,
    {
        let _n = h.len();
        let found = find_byte_from(h, pos, 59);
        let end = match found {
            Option::Some(k) => k,
            Option::None => h.len(),
        };
        let seg = slice_subrange(h, pos, end);
        let t = if seg.len() > 0 && seg[0] == 32 {
            let t = slice_subrange(seg, 1, seg.len());
            proof {
                assert(t@ =~= seg@.skip(1));
            }
            t
        } else {
            seg
        };
        if t.len() >= 2 && t[0] == 115 && t[1] == 61 {
            let payload = slice_subrange(t, 2, t.len());
            proof {
                assert(payload@ =~= t@.skip(2));
                assert(spec_seg_payload(h@.subrange(pos as int, end as int)) == Some(payload@));
                match found {
                    Option::Some(k) => {
                        assert(spec_first_sid_payload_from(h@, pos as int) == Some(payload@));
                    },
                    Option::None => {
                        assert(h@.subrange(pos as int, h@.len() as int) == h@.subrange(
                            pos as int,
                            end as int,
                        ));
                        assert(spec_first_sid_payload_from(h@, pos as int) == Some(payload@));
                    },
                }
            }
            match base64_decode_nopad(payload) {
                Option::Some(v) => {
                    if v.len() == 48 {
                        proof {
                            assert forall|vv: Seq<u8>| vv.len() == 48 && spec_first_sid_payload(
                                h@,
                            ) == Some(#[trigger] b64_nopad_of(vv)) implies v@ == vv by {
                                assert(payload@ == b64_nopad_of(vv));
                            }
                        }
                        return Some(v);
                    }
                    // Entries that decode to the wrong length are skipped.
                    proof {
                        assert forall|vv: Seq<u8>| vv.len() == 48 implies spec_first_sid_payload(
                            h@,
                        ) != Some(#[trigger] b64_nopad_of(vv)) by {
                            if spec_first_sid_payload(h@) == Some(b64_nopad_of(vv)) {
                                assert(payload@ == b64_nopad_of(vv));
                                assert(v@ == vv);
                            }
                        }
                    }
                },
                Option::None => {
                    // Entries that fail to decode are skipped.
                    proof {
                        assert forall|vv: Seq<u8>| vv.len() == 48 implies spec_first_sid_payload(
                            h@,
                        ) != Some(#[trigger] b64_nopad_of(vv)) by {
                            if spec_first_sid_payload(h@) == Some(b64_nopad_of(vv)) {
                                assert(payload@ == b64_nopad_of(vv));
                            }
                        }
                    }
                },
            }
        } else {
            proof {
                assert(spec_seg_payload(h@.subrange(pos as int, end as int)) is None);
            }
        }
        match found {
            Option::Some(_) => {},
            Option::None => {
                proof {
                    if spec_first_sid_payload(h@) == spec_first_sid_payload_from(
                        h@,
                        pos as int,
                    ) {
                        assert(h@.subrange(pos as int, h@.len() as int) == h@.subrange(
                            pos as int,
                            end as int,
                        ));
                    }
                }
                return None;
            },
        }
        pos = end + 1;
    }
}

/// The `Set-Cookie` value issued at login: the session id in unpadded
/// base64 with the HttpOnly/SameSite flags, plus `Secure` on a secure
/// request.
pub open spec fn spec_login_cookie(sid: Seq<u8>, secure: bool) -> Seq<u8> {
    ("s=").spec_bytes() + b64_nopad_of(sid) + spec_cookie_suffix(secure)
}

pub open spec fn spec_cookie_suffix(secure: bool) -> Seq<u8> {
    if secure {
        ("; HttpOnly; Secure; SameSite=Strict; Max-Age=2147483648; Path=/").spec_bytes()
    } else {
        ("; HttpOnly; SameSite=Strict; Max-Age=2147483648; Path=/").spec_bytes()
    }
}

pub fn login_cookie(sid: &[u8], secure: bool) -> (r: Vec<u8>)
    ensures
        r@ == spec_login_cookie(sid@, secure),
{
    let mut out = "s=".as_bytes_vec();
    let mut enc = base64_encode_nopad(sid);
    out.append(&mut enc);
    let mut suf = if secure {
        "; HttpOnly; Secure; SameSite=Strict; Max-Age=2147483648; Path=/".as_bytes_vec()
    } else {
        "; HttpOnly; SameSite=Strict; Max-Age=2147483648; Path=/".as_bytes_vec()
    };
    out.append(&mut suf);
    proof {
        assert(out@ =~= spec_login_cookie(sid@, secure));
    }
    out
}

/// The `Set-Cookie` value that clears the session cookie at logout.
pub fn clear_cookie() -> (r: Vec<u8>)
    ensures
        r@ == ("s=; Max-Age=0; Path=/").spec_bytes(),
{
    "s=; Max-Age=0; Path=/".as_bytes_vec()
}

/// The supplied CSRF token matches when it is exactly the unpadded base64
/// of the session's raw token; compared in constant time.
pub fn csrf_matches(csrf: &str, session_csrf: &[u8]) -> (r: bool)
    ensures
        r == (csrf.spec_bytes() == b64_nopad_of(session_csrf@)),
{
    let enc = base64_encode_nopad(session_csrf);
    constant_time_eq(csrf.as_bytes(), enc.as_slice())
}

/// The logout decision: with a cookie naming a valid session, the request
/// must carry that session's CSRF token, and the session is revoked; an
/// invalid or absent session is simply cleared. `Ok(true)` says a cookie
/// was present and must be cleared.
pub fn logout(store: &mut SessionStore, sid: Option<&Vec<u8>>, csrf: &str) -> (r: Result<
    bool,
    ErrorKind,
>)
    ensures
        match sid {
            Some(sid) => match spec_authenticate(
                old(store).users@,
                old(store).sessions@,
                sha256_of(sid@),
            ) {
                Some(k) => if csrf.spec_bytes() == b64_nopad_of(old(store).sessions@[k].csrf@) {
                    r == Ok::<bool, ErrorKind>(true) && final(store).users@ == old(store).users@
                        && final(store).sessions@.len() == old(store).sessions@.len() && (forall|
                        i: int,
                    | 0 <= i < old(store).sessions@.len() ==> spec_revoked_at(
                        #[trigger] old(store).sessions@[i],
                        final(store).sessions@[i],
                        sha256_of(sid@),
                    ))
                } else {
                    r == Err::<bool, ErrorKind>(ErrorKind::InvalidArgument) && *final(store)
                        == *old(store)
                },
                None => r == Ok::<bool, ErrorKind>(true) && *final(store) == *old(store),
            },
            None => r == Ok::<bool, ErrorKind>(false) && *final(store) == *old(store),
        },
{
    let sid = match sid {
        Option::Some(sid) => sid,
        Option::None => {
            return Ok(false);
        },
    };
    let hash = sha256(sid.as_slice());
    match store.authenticate_session(hash.as_slice()) {
        Option::Some((_, info)) => {
            if !csrf_matches(csrf, info.csrf.as_slice()) {
                return Err(ErrorKind::InvalidArgument);
            }
            store.revoke_session(hash.as_slice());
            Ok(true)
        },
        Option::None => Ok(true),
    }
}

/// Session lifecycle, login half: a fresh unrevoked session of an enabled
/// user, stored under a hash no other session carries, authenticates.
pub proof fn lemma_login_authenticates(
    users: Seq<User>,
    sessions: Seq<SessionRecord>,
    rec: SessionRecord,
)
    requires
        !rec.revoked,
        spec_user_enabled(users, encode_utf8(rec.username@)),
        forall|i: int| 0 <= i < sessions.len() ==> (#[trigger] sessions[i]).hash@ != rec.hash@,
    ensures
        spec_authenticate(users, sessions.push(rec), rec.hash@) == Some(sessions.len() as int),
{
    lemma_find_session_push(users, sessions, rec, 0);
}

/// The named user exists and is enabled.
pub open spec fn spec_user_enabled(users: Seq<User>, name: Seq<u8>) -> bool {
    match spec_find_user(users, name, 0) {
        Option::Some(u) => users[u].enabled,
        Option::None => false,
    }
}

proof fn lemma_find_session_push(
    users: Seq<User>,
    sessions: Seq<SessionRecord>,
    rec: SessionRecord,
    i: int,
)
    requires
        0 <= i <= sessions.len(),
        forall|j: int| 0 <= j < sessions.len() ==> (#[trigger] sessions[j]).hash@ != rec.hash@,
    ensures
        spec_find_session(sessions.push(rec), rec.hash@, i) == Some(sessions.len() as int),
    decreases sessions.len() - i,
{
    if i < sessions.len() {
        assert(sessions.push(rec)[i] == sessions[i]);
        lemma_find_session_push(users, sessions, rec, i + 1);
    } else {
        assert(sessions.push(rec)[i] == rec);
    }
}

/// A found session lies in bounds and carries the hash.
proof fn lemma_find_session_found(sessions: Seq<SessionRecord>, hash: Seq<u8>, i: int)
    ensures
        match spec_find_session(sessions, hash, i) {
            Option::Some(k) => i <= k < sessions.len() && sessions[k].hash@ == hash,
            Option::None => true,
        },
    decreases sessions.len() - i,
{
    if 0 <= i && i < sessions.len() && sessions[i].hash@ != hash {
        lemma_find_session_found(sessions, hash, i + 1);
    }
}

/// Session lifecycle, logout half: after a hash is revoked it no longer
/// authenticates.
pub proof fn lemma_revoke_deauthenticates(
    users: Seq<User>,
    pre: Seq<SessionRecord>,
    post: Seq<SessionRecord>,
    hash: Seq<u8>,
)
    requires
        post.len() == pre.len(),
        forall|i: int| 0 <= i < pre.len() ==> spec_revoked_at(#[trigger] pre[i], post[i], hash),
    ensures
        spec_authenticate(users, post, hash) is None,
{
    lemma_find_session_found(post, hash, 0);
    match spec_find_session(post, hash, 0) {
        Option::Some(k) => {
            assert(spec_revoked_at(pre[k], post[k], hash));
            assert(post[k].revoked);
        },
        Option::None => {},
    }
}

/// Session lifecycle, cookie side: a `Cookie` header holding exactly the
/// pair set at login (`s=` and the encoded id, which the encoder draws
/// from an alphabet without `;` or spaces) denotes the fresh session id.
pub proof fn lemma_cookie_names_sid(sid: Seq<u8>)
    requires
        forall|j: int| 0 <= j < b64_nopad_of(sid).len() ==> (#[trigger] b64_nopad_of(sid)[j])
            != 59,
    ensures
        spec_first_sid_payload(("s=").spec_bytes() + b64_nopad_of(sid)) == Some(
            b64_nopad_of(sid),
        ),
{
    let enc = b64_nopad_of(sid);
    let h = ("s=").spec_bytes() + enc;
    reveal_strlit("s=");
    assert(vstd::utf8::is_ascii_chars(("s=")@));
    vstd::utf8::is_ascii_chars_encode_utf8(("s=")@);
    assert(("s=").spec_bytes().len() == 2);
    assert(("s=").spec_bytes()[0] == 115);
    assert(("s=").spec_bytes()[1] == 61);
    assert(h[0] == 115);
    assert(h[1] == 61);
    assert forall|j: int| 0 <= j < h.len() implies h[j] != 59 by {
        if j >= 2 {
            assert(h[j] == enc[j - 2]);
        }
    }
    crate::bytes::lemma_find_from_none(h, 0, 59);
    assert(h.subrange(0, h.len() as int) =~= h);
    assert(h.skip(2) =~= enc);
}

/// What the authenticator returns when no valid session backs the request.
pub open spec fn spec_fallback(
    r: Result<Caller, ErrorKind>,
    anon: Option<Permissions>,
    unauth_path: bool,
) -> bool {
    match anon {
        Option::Some(p) => r matches Ok(c) && c.permissions == p && c.session is None,
        Option::None => if unauth_path {
            r matches Ok(c) && c.permissions == (Permissions {
                view_video: false,
                read_camera_configs: false,
                update_signals: false,
            }) && c.session is None
        } else {
            r == Err::<Caller, ErrorKind>(ErrorKind::Unauthenticated)
        },
    }
}

} // verus!
