use nvr_web::path::Path;
use nvr_web::types::{StreamType, Uuid};

#[test]
fn paths() {
    let cam_uuid = Uuid::from_bytes(
        *uuid::Uuid::parse_str("35144640-ff1e-4619-b0d5-4c74c185741c")
            .unwrap()
            .as_bytes(),
    );
    assert_eq!(Path::decode("/foo"), Path::Static);
    assert_eq!(Path::decode("/api/"), Path::TopLevel);
    assert_eq!(
        Path::decode("/api/init/07cec464126825088ea86a07eddd6a00afa71559.mp4"),
        Path::InitSegment(
            [
                0x07, 0xce, 0xc4, 0x64, 0x12, 0x68, 0x25, 0x08, 0x8e, 0xa8, 0x6a, 0x07, 0xed,
                0xdd, 0x6a, 0x00, 0xaf, 0xa7, 0x15, 0x59
            ],
            false
        )
    );
    assert_eq!(
        Path::decode("/api/init/07cec464126825088ea86a07eddd6a00afa71559.mp4.txt"),
        Path::InitSegment(
            [
                0x07, 0xce, 0xc4, 0x64, 0x12, 0x68, 0x25, 0x08, 0x8e, 0xa8, 0x6a, 0x07, 0xed,
                0xdd, 0x6a, 0x00, 0xaf, 0xa7, 0x15, 0x59
            ],
            true
        )
    );
    // non-hexadigit
    assert_eq!(
        Path::decode("/api/init/000000000000000000000000000000000000000x.mp4"),
        Path::NotFound
    );
    // too short
    assert_eq!(
        Path::decode("/api/init/000000000000000000000000000000000000000.mp4"),
        Path::NotFound
    );
    assert_eq!(
        Path::decode("/api/cameras/35144640-ff1e-4619-b0d5-4c74c185741c/"),
        Path::Camera(cam_uuid)
    );
    assert_eq!(Path::decode("/api/cameras/asdf/"), Path::NotFound);
    assert_eq!(
        Path::decode("/api/cameras/35144640-ff1e-4619-b0d5-4c74c185741c/main/recordings"),
        Path::StreamRecordings(cam_uuid, StreamType::Main)
    );
    assert_eq!(
        Path::decode("/api/cameras/35144640-ff1e-4619-b0d5-4c74c185741c/sub/recordings"),
        Path::StreamRecordings(cam_uuid, StreamType::Sub)
    );
    assert_eq!(
        Path::decode("/api/cameras/35144640-ff1e-4619-b0d5-4c74c185741c/junk/recordings"),
        Path::NotFound
    );
    assert_eq!(
        Path::decode("/api/cameras/35144640-ff1e-4619-b0d5-4c74c185741c/main/view.mp4"),
        Path::StreamViewMp4(cam_uuid, StreamType::Main, false)
    );
    assert_eq!(
        Path::decode("/api/cameras/35144640-ff1e-4619-b0d5-4c74c185741c/main/view.mp4.txt"),
        Path::StreamViewMp4(cam_uuid, StreamType::Main, true)
    );
    assert_eq!(
        Path::decode("/api/cameras/35144640-ff1e-4619-b0d5-4c74c185741c/main/view.m4s"),
        Path::StreamViewMp4Segment(cam_uuid, StreamType::Main, false)
    );
    assert_eq!(
        Path::decode("/api/cameras/35144640-ff1e-4619-b0d5-4c74c185741c/main/view.m4s.txt"),
        Path::StreamViewMp4Segment(cam_uuid, StreamType::Main, true)
    );
    assert_eq!(
        Path::decode("/api/cameras/35144640-ff1e-4619-b0d5-4c74c185741c/main/live.m4s"),
        Path::StreamLiveMp4Segments(cam_uuid, StreamType::Main)
    );
    assert_eq!(
        Path::decode("/api/cameras/35144640-ff1e-4619-b0d5-4c74c185741c/main/junk"),
        Path::NotFound
    );
    assert_eq!(Path::decode("/api/login"), Path::Login);
    assert_eq!(Path::decode("/api/logout"), Path::Logout);
    assert_eq!(Path::decode("/api/signals"), Path::Signals);
    assert_eq!(Path::decode("/api/junk"), Path::NotFound);
}

#[test]
fn paths_uuid_formats() {
    // uuid's parser accepts the simple format too; the router keeps that.
    let cam_uuid = Uuid::from_bytes(
        *uuid::Uuid::parse_str("35144640-ff1e-4619-b0d5-4c74c185741c")
            .unwrap()
            .as_bytes(),
    );
    assert_eq!(
        Path::decode("/api/cameras/35144640ff1e4619b0d54c74c185741c/"),
        Path::Camera(cam_uuid)
    );
}

#[test]
fn paths_route_flags() {
    assert!(Path::decode("/foo").allows_unauthenticated());
    assert!(Path::decode("/api/login").allows_unauthenticated());
    assert!(Path::decode("/api/logout").allows_unauthenticated());
    assert!(Path::decode("/api/request").allows_unauthenticated());
    assert!(Path::decode("/api/junk").allows_unauthenticated());
    assert!(!Path::decode("/api/").allows_unauthenticated());
    assert!(!Path::decode("/api/signals").allows_unauthenticated());
    assert!(!Path::decode("/foo").is_private());
    assert!(Path::decode("/api/").is_private());
    assert!(Path::decode("/api/login").is_private());
}
