use nvr_web::session::{authenticate, extract_sid, login_cookie, AuthReq, SessionStore};
use nvr_web::types::{status_for, ErrorKind, Permissions};

fn authreq() -> AuthReq {
    AuthReq { when_sec: Some(1500000000), addr: None, user_agent: Some(b"curl/7".to_vec()) }
}

fn store_with_user() -> SessionStore {
    let mut store = SessionStore::new();
    store.add_user(
        "slamb".to_owned(),
        "hunter2".to_owned(),
        Permissions { view_video: true, read_camera_configs: false, update_signals: false },
    );
    store
}

#[test]
fn unauthorized_without_cookie() {
    let store = SessionStore::new();
    let r = authenticate(&store, None, &None, false);
    match r {
        Err(k) => assert_eq!(status_for(k), 401),
        Ok(_) => panic!("expected Unauthenticated"),
    }
}

#[test]
fn login() {
    let mut store = store_with_user();

    // Wrong password.
    assert_eq!(
        store.login_by_password("slamb", "asdf", b"nvr.example.com".to_vec(), authreq()).unwrap_err(),
        ErrorKind::Unauthenticated
    );
    // Unknown user.
    assert_eq!(
        store.login_by_password("nobody", "hunter2", b"nvr.example.com".to_vec(), authreq()).unwrap_err(),
        ErrorKind::Unauthenticated
    );

    // Right password: the cookie comes back and authenticates.
    let sid = store.login_by_password("slamb", "hunter2", b"nvr.example.com".to_vec(), authreq()).unwrap();
    assert_eq!(sid.len(), 48);
    // the id itself is never stored; only its 32-byte digest is
    assert_eq!(store.sessions[0].hash.len(), 32);
    assert_eq!(store.sessions[0].domain, b"nvr.example.com".to_vec());
    assert_eq!(store.sessions[0].created.when_sec, Some(1500000000));
    let cookie = login_cookie(&sid, false);
    let cookie_str = String::from_utf8(cookie).unwrap();
    assert!(cookie_str.starts_with("s="));
    assert!(cookie_str.ends_with("; HttpOnly; SameSite=Strict; Max-Age=2147483648; Path=/"));

    let secure_cookie = String::from_utf8(login_cookie(&sid, true)).unwrap();
    assert!(secure_cookie.contains("; Secure;"));

    // The client echoes the pair before the attributes back as Cookie.
    let pair = cookie_str.split("; ").next().unwrap();
    let extracted = extract_sid(pair.as_bytes()).unwrap();
    assert_eq!(extracted, sid);

    let caller = authenticate(&store, Some(&extracted), &None, false).unwrap();
    assert!(caller.permissions.view_video);
    let session = caller.session.unwrap();
    assert_eq!(session.username, "slamb");
    assert_eq!(session.csrf.len(), 24);
}

#[test]
fn logout() {
    let mut store = store_with_user();
    let sid = store.login_by_password("slamb", "hunter2", b"nvr.example.com".to_vec(), authreq()).unwrap();

    // A wrong CSRF token is refused and the session stays valid.
    let r = nvr_web::session::logout(&mut store, Some(&sid), "AAAAAAAAAAAAAAAAAAAAAAAAAAAAAAAA");
    assert_eq!(r.map_err(status_for), Err(400));
    assert!(authenticate(&store, Some(&sid), &None, false).is_ok());

    // The right token, as the session descriptor reports it, revokes.
    let caller = authenticate(&store, Some(&sid), &None, false).unwrap();
    let csrf_raw = caller.session.unwrap().csrf;
    let csrf_b64 = b64_nopad(&csrf_raw);
    assert_eq!(csrf_b64.len(), 32);
    assert_eq!(nvr_web::session::logout(&mut store, Some(&sid), &csrf_b64), Ok(true));

    // The old cookie no longer authenticates.
    let r = authenticate(&store, Some(&sid), &None, false);
    match r {
        Err(k) => assert_eq!(status_for(k), 401),
        Ok(_) => panic!("revoked session still authenticates"),
    }

    // Without a cookie nothing is revoked and nothing is cleared.
    assert_eq!(nvr_web::session::logout(&mut store, None, &csrf_b64), Ok(false));
}

fn b64_nopad(raw: &[u8]) -> String {
    base64::Engine::encode(&base64::engine::general_purpose::STANDARD_NO_PAD, raw)
}

#[test]
fn extract_sid_picks_first_s_cookie() {
    let mut store = store_with_user();
    let sid = store.login_by_password("slamb", "hunter2", b"nvr.example.com".to_vec(), authreq()).unwrap();
    let enc = b64_nopad(&sid);
    let header = format!("other=1; s={}; later=2", enc);
    assert_eq!(extract_sid(header.as_bytes()).unwrap(), sid);
    assert_eq!(extract_sid(b"other=1; later=2"), None);
    assert_eq!(extract_sid(b"s=notbase64!"), None);
    assert_eq!(extract_sid(b"s=QQ"), None); // decodes to one byte, not 48

    // an undecodable s= entry is skipped in favor of a later good one
    let header = format!("s=notbase64!; s={}", enc);
    assert_eq!(extract_sid(header.as_bytes()).unwrap(), sid);
}

#[test]
fn anonymous_permissions_apply() {
    let store = SessionStore::new();
    let anon = Some(Permissions {
        view_video: true,
        read_camera_configs: false,
        update_signals: false,
    });
    let caller = authenticate(&store, None, &anon, false).unwrap();
    assert!(caller.permissions.view_video);
    assert!(caller.session.is_none());

    // An unauthenticated-tolerant route gets an empty caller.
    let caller = authenticate(&store, None, &None, true).unwrap();
    assert!(!caller.permissions.view_video);
    assert!(caller.session.is_none());
}

#[test]
fn csrf_matches_encoding() {
    let raw: Vec<u8> = (0u8..24).collect();
    let enc = b64_nopad(&raw);
    assert!(nvr_web::session::csrf_matches(&enc, &raw));
    assert!(!nvr_web::session::csrf_matches("AAAAAAAAAAAAAAAAAAAAAAAAAAAAAAAA", &raw));
}

#[test]
fn clear_cookie_value() {
    assert_eq!(nvr_web::session::clear_cookie(), b"s=; Max-Age=0; Path=/".to_vec());
}
