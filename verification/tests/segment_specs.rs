use nvr_web::segments::Segments;

#[test]
fn test_segments() {
    assert_eq!(
        Segments { ids: 1..2, open_id: None, start_time: 0, end_time: None },
        Segments::parse("1").unwrap()
    );
    assert_eq!(
        Segments { ids: 1..2, open_id: Some(42), start_time: 0, end_time: None },
        Segments::parse("1@42").unwrap()
    );
    assert_eq!(
        Segments { ids: 1..2, open_id: None, start_time: 26, end_time: None },
        Segments::parse("1.26-").unwrap()
    );
    assert_eq!(
        Segments { ids: 1..2, open_id: Some(42), start_time: 26, end_time: None },
        Segments::parse("1@42.26-").unwrap()
    );
    assert_eq!(
        Segments { ids: 1..2, open_id: None, start_time: 0, end_time: Some(42) },
        Segments::parse("1.-42").unwrap()
    );
    assert_eq!(
        Segments { ids: 1..2, open_id: None, start_time: 26, end_time: Some(42) },
        Segments::parse("1.26-42").unwrap()
    );
    assert_eq!(
        Segments { ids: 1..6, open_id: None, start_time: 0, end_time: None },
        Segments::parse("1-5").unwrap()
    );
    assert_eq!(
        Segments { ids: 1..6, open_id: None, start_time: 26, end_time: None },
        Segments::parse("1-5.26-").unwrap()
    );
    assert_eq!(
        Segments { ids: 1..6, open_id: None, start_time: 0, end_time: Some(42) },
        Segments::parse("1-5.-42").unwrap()
    );
    assert_eq!(
        Segments { ids: 1..6, open_id: None, start_time: 26, end_time: Some(42) },
        Segments::parse("1-5.26-42").unwrap()
    );
}

#[test]
fn segments_rejects() {
    assert_eq!(Segments::parse(""), Err(()));
    assert_eq!(Segments::parse("a"), Err(()));
    assert_eq!(Segments::parse("5-1"), Err(()));
    assert_eq!(Segments::parse("1-"), Err(()));
    assert_eq!(Segments::parse("1@"), Err(()));
    assert_eq!(Segments::parse("1."), Err(()));
    assert_eq!(Segments::parse("1.26"), Err(()));
    assert_eq!(Segments::parse("1.42-26"), Err(()));
    assert_eq!(Segments::parse("1.26-26"), Err(()));
    assert_eq!(Segments::parse("1-5-7"), Err(()));
    // numbers out of range
    assert_eq!(Segments::parse("2147483648"), Err(()));
    assert_eq!(Segments::parse("1-2147483647"), Err(()));
    assert_eq!(Segments::parse("1@4294967296"), Err(()));
    // largest accepted values
    assert_eq!(
        Segments { ids: 2147483646..2147483647, open_id: None, start_time: 0, end_time: None },
        Segments::parse("2147483646").unwrap()
    );
    assert_eq!(
        Segments { ids: 1..2, open_id: Some(4294967295), start_time: 0, end_time: None },
        Segments::parse("1@4294967295").unwrap()
    );
}

#[test]
fn segments_serialize_round_trip() {
    for text in [
        "1",
        "1@42",
        "1.26-",
        "1@42.26-",
        "1.-42",
        "1.26-42",
        "1-5",
        "1-5.26-",
        "1-5.-42",
        "1-5.26-42",
    ] {
        let seg = Segments::parse(text).unwrap();
        let re = seg.serialize();
        let reparsed = Segments::parse(std::str::from_utf8(&re).unwrap()).unwrap();
        assert_eq!(seg, reparsed);
    }
    // canonical text drops what says nothing
    assert_eq!(Segments::parse("1-1").unwrap().serialize(), b"1".to_vec());
    assert_eq!(
        Segments::parse("1-5.26-42").unwrap().serialize(),
        b"1-5.26-42".to_vec()
    );
    assert_eq!(Segments::parse("1.-42").unwrap().serialize(), b"1.0-42".to_vec());
}
