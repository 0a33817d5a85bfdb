use nvr_web::assembly::{build_view_plan, estimate_segments, Append, AssemblyError, RecordingRow};
use nvr_web::query::{recordings_query, signals_query, top_level_plan, view_query, TopLevelPlan};
use nvr_web::segments::Segments;
use nvr_web::service::{
    check_json_request, check_view_has_samples, classify_ui_file, domain_of_host,
    find_video_sample_entry, is_secure, live_part_header, live_precheck, live_row_check,
    post_signals_plan, recordings_to_json, request_echo, signals_from_rows, signals_method,
    AggregatedRow, PostSignalsEndBase, PostSignalsRequest, SignalChangeRow, SignalsMethod,
    VideoSampleEntry,
};
use nvr_web::types::Permissions;

fn perms_all() -> Permissions {
    Permissions { view_video: true, read_camera_configs: true, update_signals: true }
}

fn perms_none() -> Permissions {
    Permissions { view_video: false, read_camera_configs: false, update_signals: false }
}

fn row(id: i32, open_id: u32, duration_90k: i32) -> RecordingRow {
    RecordingRow { id, open_id, duration_90k, video_sample_entry_id: 1 }
}

#[test]
fn view_without_segments() {
    // `view.mp4` with no `s=` parameter assembles nothing, which is refused.
    let vr = view_query("").unwrap();
    assert!(vr.selections.is_empty());
    assert!(!vr.ts);
    let reply = check_view_has_samples(0).unwrap();
    assert_eq!(reply.status, 400);
}

#[test]
fn view_unknown_key_rejected() {
    let reply = view_query("camera=1").unwrap_err();
    assert_eq!(reply.status, 400);
    assert_eq!(reply.body, b"parameter camera not understood".to_vec());

    // even beside a valid selection
    let reply = view_query("s=1-5&camera=1").unwrap_err();
    assert_eq!(reply.status, 400);
}

#[test]
fn view_query_reads_selections() {
    let vr = view_query("s=1-5.26-42&ts=true").unwrap();
    assert_eq!(vr.selections.len(), 1);
    assert_eq!(
        vr.selections[0],
        Segments { ids: 1..6, open_id: None, start_time: 26, end_time: Some(42) }
    );
    assert!(vr.ts);

    let reply = view_query("s=5-1").unwrap_err();
    assert_eq!(reply.status, 400);
    assert_eq!(reply.body, b"invalid s parameter: 5-1".to_vec());

    // several selections accumulate in order; the last ts wins
    let vr = view_query("s=1&ts=true&s=7-9&ts=false").unwrap();
    assert_eq!(vr.selections.len(), 2);
    assert_eq!(vr.selections[0].ids, 1..2);
    assert_eq!(vr.selections[1].ids, 7..10);
    assert!(!vr.ts);
}

#[test]
fn contiguity_accepts_dense_range() {
    let s = Segments::parse("1-3").unwrap();
    let rows = vec![row(1, 7, 100), row(2, 7, 200), row(3, 7, 300)];
    let plan = build_view_plan(&s, &rows).unwrap();
    assert_eq!(
        plan,
        vec![
            Append { id: 1, start_90k: 0, end_90k: 100 },
            Append { id: 2, start_90k: 0, end_90k: 200 },
            Append { id: 3, start_90k: 0, end_90k: 300 },
        ]
    );
}

#[test]
fn contiguity_rejects_gap() {
    let s = Segments::parse("1-3").unwrap();
    let rows = vec![row(1, 7, 100), row(3, 7, 300)];
    assert_eq!(
        build_view_plan(&s, &rows).unwrap_err(),
        AssemblyError::NoSuchRecording { id: 2 }
    );

    // empty
    assert_eq!(
        build_view_plan(&s, &vec![]).unwrap_err(),
        AssemblyError::NoSuchRecording { id: 1 }
    );

    // short
    let rows = vec![row(1, 7, 100), row(2, 7, 200)];
    assert_eq!(
        build_view_plan(&s, &rows).unwrap_err(),
        AssemblyError::NoSuchRecording { id: 3 }
    );

    // wrong first id
    let rows = vec![row(2, 7, 100), row(3, 7, 200), row(4, 7, 300)];
    assert_eq!(
        build_view_plan(&s, &rows).unwrap_err(),
        AssemblyError::NoSuchRecording { id: 1 }
    );
}

#[test]
fn open_id_guard() {
    let s = Segments::parse("1-2@7").unwrap();
    let rows = vec![row(1, 7, 100), row(2, 8, 200)];
    assert_eq!(
        build_view_plan(&s, &rows).unwrap_err(),
        AssemblyError::OpenIdMismatch { id: 2, open_id: 8, requested: 7 }
    );
}

#[test]
fn trimming_and_end_beyond() {
    // 1@0..100, 2@100..300, 3@300..600; window [150, 450)
    let s = Segments::parse("1-3.150-450").unwrap();
    let rows = vec![row(1, 7, 100), row(2, 7, 200), row(3, 7, 300)];
    let plan = build_view_plan(&s, &rows).unwrap();
    assert_eq!(
        plan,
        vec![
            Append { id: 2, start_90k: 50, end_90k: 200 },
            Append { id: 3, start_90k: 0, end_90k: 150 },
        ]
    );

    // an end time past the recordings is the caller's error
    let s = Segments::parse("1-3.150-601").unwrap();
    assert_eq!(
        build_view_plan(&s, &rows).unwrap_err(),
        AssemblyError::EndBeyond { end_time: 601 }
    );
}

#[test]
fn estimate_segments_formula() {
    // without an end time: the id count
    assert_eq!(estimate_segments(&Segments::parse("1-5").unwrap()), 5);
    // one desired-duration span plus slack, capped by the id count
    assert_eq!(estimate_segments(&Segments::parse("1-100.0-5400000").unwrap()), 3);
    assert_eq!(estimate_segments(&Segments::parse("1-100.0-5400001").unwrap()), 4);
    assert_eq!(estimate_segments(&Segments::parse("1-2.0-5400000").unwrap()), 2);
}

#[test]
fn top_level_flags() {
    assert_eq!(
        top_level_plan("days=true&cameraConfigs=true", &perms_all()).unwrap(),
        TopLevelPlan { days: true, camera_configs: true }
    );
    assert_eq!(
        top_level_plan("", &perms_none()).unwrap(),
        TopLevelPlan { days: false, camera_configs: false }
    );
    // last occurrence wins
    assert_eq!(
        top_level_plan("days=true&days=false", &perms_none()).unwrap(),
        TopLevelPlan { days: false, camera_configs: false }
    );
    // unknown keys are ignored here
    assert_eq!(
        top_level_plan("junk=1", &perms_none()).unwrap(),
        TopLevelPlan { days: false, camera_configs: false }
    );
    let reply = top_level_plan("cameraConfigs=true", &perms_none()).unwrap_err();
    assert_eq!(reply.status, 401);
    assert_eq!(reply.body, b"read_camera_configs required".to_vec());
}

#[test]
fn recordings_query_parses() {
    let q = recordings_query("startTime90k=10&endTime90k=20&split90k=30").unwrap();
    assert_eq!((q.start_90k, q.end_90k, q.split_90k), (10, 20, 30));

    let q = recordings_query("").unwrap();
    assert_eq!((q.start_90k, q.end_90k, q.split_90k), (i64::MIN, i64::MAX, i64::MAX));

    let q = recordings_query("startTime90k=-5").unwrap();
    assert_eq!(q.start_90k, -5);

    let reply = recordings_query("startTime90k=x").unwrap_err();
    assert_eq!(reply.status, 400);
    assert_eq!(reply.body, b"unparseable startTime90k".to_vec());
    let reply = recordings_query("endTime90k=").unwrap_err();
    assert_eq!(reply.body, b"unparseable endTime90k".to_vec());
    let reply = recordings_query("split90k=1x").unwrap_err();
    assert_eq!(reply.body, b"unparseable split90k".to_vec());
}

#[test]
fn signals_query_parses() {
    let q = signals_query("startTime90k=10&endTime90k=20").unwrap();
    assert_eq!((q.start_90k, q.end_90k), (10, 20));
    // split90k is not a signals key, and unknown keys are ignored
    let q = signals_query("split90k=30").unwrap();
    assert_eq!(q.split_90k, i64::MAX);
    let reply = signals_query("endTime90k=x").unwrap_err();
    assert_eq!(reply.status, 400);
}

#[test]
fn json_request_checks() {
    assert!(check_json_request(b"POST", Some(b"application/json")).is_none());
    assert!(check_json_request(b"POST", Some(b"application/json; charset=UTF-8")).is_none());
    let reply = check_json_request(b"GET", Some(b"application/json")).unwrap();
    assert_eq!(reply.status, 405);
    let reply = check_json_request(b"POST", Some(b"text/plain")).unwrap();
    assert_eq!(reply.status, 400);
    let reply = check_json_request(b"POST", None).unwrap();
    assert_eq!(reply.status, 400);
}

#[test]
fn signals_method_dispatch() {
    assert_eq!(signals_method(b"POST").unwrap(), SignalsMethod::Post);
    assert_eq!(signals_method(b"GET").unwrap(), SignalsMethod::Read);
    assert_eq!(signals_method(b"HEAD").unwrap(), SignalsMethod::Read);
    assert_eq!(signals_method(b"PUT").unwrap_err().status, 405);
}

#[test]
fn secure_and_domain() {
    assert!(is_secure(true, Some(b"https")));
    assert!(!is_secure(true, Some(b"http")));
    assert!(!is_secure(false, Some(b"https")));
    assert!(!is_secure(true, None));
    assert_eq!(domain_of_host(b"nvr.example.com:8080"), b"nvr.example.com".to_vec());
    assert_eq!(domain_of_host(b"nvr.example.com"), b"nvr.example.com".to_vec());
}

#[test]
fn init_segment_lookup() {
    let entries = vec![
        VideoSampleEntry { id: 1, width: 1280, height: 720, sha1: [1; 20] },
        VideoSampleEntry { id: 2, width: 1920, height: 1080, sha1: [2; 20] },
    ];
    assert_eq!(find_video_sample_entry(&entries, &[2; 20]), Some(1));
    assert_eq!(find_video_sample_entry(&entries, &[3; 20]), None);
}

#[test]
fn recordings_listing() {
    let entries = vec![VideoSampleEntry { id: 9, width: 1280, height: 720, sha1: [0xab; 20] }];
    let rows = vec![
        AggregatedRow {
            start_id: 1,
            end_id: 4,
            start_90k: 0,
            end_90k: 600,
            sample_file_bytes: 123,
            open_id: 7,
            first_uncommitted: Some(3),
            video_samples: 60,
            video_sample_entry_id: 9,
            growing: true,
        },
        AggregatedRow {
            start_id: 4,
            end_id: 5,
            start_90k: 600,
            end_90k: 700,
            sample_file_bytes: 45,
            open_id: 7,
            first_uncommitted: None,
            video_samples: 10,
            video_sample_entry_id: 9,
            growing: false,
        },
    ];
    let out = recordings_to_json(&rows, &entries).unwrap();
    assert_eq!(out.len(), 2);
    // in the listing, ids are inclusive; a single-recording run omits its end
    assert_eq!(out[0].start_id, 1);
    assert_eq!(out[0].end_id, Some(3));
    assert_eq!(out[1].end_id, None);
    assert_eq!(out[0].video_sample_entry_width, 1280);
    assert_eq!(
        out[0].video_sample_entry_sha1,
        b"abababababababababababababababababababab".to_vec()
    );

    let missing = vec![AggregatedRow { video_sample_entry_id: 8, ..rows[0] }];
    assert_eq!(recordings_to_json(&missing, &entries).unwrap_err().status, 500);
}

#[test]
fn live_stream_values() {
    let reply = live_precheck(&perms_none(), Some(7)).unwrap_err();
    assert_eq!(reply.status, 401);
    let reply = live_precheck(&perms_all(), None).unwrap_err();
    assert_eq!(reply.status, 412);
    assert_eq!(live_precheck(&perms_all(), Some(7)).unwrap(), 7);

    let rows = vec![row(5, 7, 100)];
    assert_eq!(live_row_check(&rows, 5).unwrap(), rows[0]);
    assert_eq!(live_row_check(&rows, 6).unwrap_err().status, 500);
    assert_eq!(live_row_check(&vec![], 5).unwrap_err().status, 500);

    let hdr = live_part_header(1000, b"video/mp4", 5, 90000, 180000, &[0xab; 20]);
    let expected = format!(
        "--B\r\nContent-Length: 1000\r\nContent-Type: video/mp4\r\nX-Recording-Id: 5\r\n\
         X-Time-Range: 90000-180000\r\nX-Video-Sample-Entry-Sha1: \
         abababababababababababababababababababab\r\n\r\n"
    );
    assert_eq!(hdr, expected.into_bytes());
}

#[test]
fn post_signals_decisions() {
    let req = PostSignalsRequest {
        signal_ids: vec![1],
        states: vec![2],
        start_time_90k: None,
        end_base: PostSignalsEndBase::Epoch,
        rel_end_time_90k: Some(500),
    };
    assert_eq!(post_signals_plan(&perms_none(), &req, 100).unwrap_err().status, 401);
    assert_eq!(post_signals_plan(&perms_all(), &req, 100).unwrap(), (100, 500));

    let req = PostSignalsRequest { rel_end_time_90k: None, ..req };
    let reply = post_signals_plan(&perms_all(), &req, 100).unwrap_err();
    assert_eq!(reply.status, 400);
    assert_eq!(
        reply.body,
        b"must specify rel_end_time_90k when end_base is epoch".to_vec()
    );

    let req = PostSignalsRequest {
        start_time_90k: Some(90),
        end_base: PostSignalsEndBase::Now,
        rel_end_time_90k: Some(500),
        ..req
    };
    assert_eq!(post_signals_plan(&perms_all(), &req, 100).unwrap(), (90, 600));

    let req = PostSignalsRequest { rel_end_time_90k: None, ..req };
    assert_eq!(post_signals_plan(&perms_all(), &req, 100).unwrap(), (90, 100));

    let req = PostSignalsRequest { rel_end_time_90k: Some(i64::MAX), ..req };
    assert_eq!(post_signals_plan(&perms_all(), &req, 100).unwrap_err().status, 400);
}

#[test]
fn signals_rows() {
    let rows = vec![
        SignalChangeRow { when_90k: 1, signal: 10, state: 0 },
        SignalChangeRow { when_90k: 2, signal: 10, state: 1 },
    ];
    let s = signals_from_rows(&rows);
    assert_eq!(s.times_90k, vec![1, 2]);
    assert_eq!(s.signal_ids, vec![10, 10]);
    assert_eq!(s.states, vec![0, 1]);
}

#[test]
fn ui_file_classification() {
    assert_eq!(
        classify_ui_file("index.html").unwrap(),
        (b"/".to_vec(), "text/html")
    );
    assert_eq!(
        classify_ui_file("live.html").unwrap(),
        (b"/live.html".to_vec(), "text/html")
    );
    assert_eq!(
        classify_ui_file("favicon.ico").unwrap(),
        (b"/favicon.ico".to_vec(), "image/vnd.microsoft.icon")
    );
    assert_eq!(
        classify_ui_file("main.js").unwrap(),
        (b"/main.js".to_vec(), "text/javascript")
    );
    assert_eq!(
        classify_ui_file("main.js.map").unwrap(),
        (b"/main.js.map".to_vec(), "text/javascript")
    );
    assert_eq!(
        classify_ui_file("logo.png").unwrap(),
        (b"/logo.png".to_vec(), "image/png")
    );
    assert_eq!(classify_ui_file("notes.txt"), None);
}

#[test]
fn request_echo_body() {
    let body = request_echo(
        1500000000,
        Some(b"nvr.example.com"),
        None,
        Some(b"curl/7"),
        true,
    );
    assert_eq!(
        body,
        b"when: 1500000000\nhost: nvr.example.com\naddr: none\nuser_agent: curl/7\nsecure: true"
            .to_vec()
    );
    let body = request_echo(-1, None, None, None, false);
    assert_eq!(
        body,
        b"when: -1\nhost: none\naddr: none\nuser_agent: none\nsecure: false".to_vec()
    );
}
