use rustle::proto::{
    frame_len, read_frame, write_frame, FileEntry, FrameError, LinkEntry, Request, Response,
};

#[test]
fn request_plan_round_trips() {
    let req = Request::Plan {
        include_hidden: false,
        prune: true,
        excludes: vec!["target".into(), ".*".into()],
        files: vec![
            FileEntry { rel: "src/main.rs".into(), size: 123, mtime: 1_700_000_000 },
            FileEntry { rel: "Cargo.toml".into(), size: 45, mtime: 1_700_000_001 },
        ],
        links: vec![LinkEntry { rel: "link.rs".into(), target: "src/main.rs".into() }],
    };
    assert_eq!(Request::decode(&req.encode()), Some(req));
}

#[test]
fn response_worklist_round_trips() {
    let resp = Response::Worklist {
        uploads: vec!["a".into(), "b/c.rs".into()],
        created_dirs: 3,
        pruned: 1,
        symlinks: 2,
    };
    assert_eq!(Response::decode(&resp.encode()), Some(resp));
}

#[test]
fn truncated_frame_decodes_to_none_not_panic() {
    let full = Request::Hello { proto: 7 }.encode();
    assert!(Request::decode(&full[..full.len() - 2]).is_none());
    assert!(Request::decode(&[]).is_none());
}

#[test]
fn frame_write_read_is_symmetric() {
    let body = Request::Bye.encode();
    let mut buf = Vec::new();
    write_frame(&mut buf, &body).unwrap();
    let mut cursor: &[u8] = &buf;
    assert_eq!(read_frame(&mut cursor).unwrap(), body);
}

fn plan() -> Request {
    Request::Plan {
        include_hidden: true,
        prune: false,
        excludes: vec!["é".into()],
        files: vec![FileEntry { rel: "a".into(), size: 0x0102_0304_0506_0708, mtime: 0x090a_0b0c }],
        links: vec![LinkEntry { rel: "l".into(), target: "".into() }],
    }
}

#[test]
fn requests_have_these_bytes() {
    assert_eq!(Request::Hello { proto: 0x0102_0304 }.encode(), vec![1, 1, 2, 3, 4]);
    assert_eq!(Request::Bye.encode(), vec![3]);
    let bytes: Vec<u8> = vec![
        2, 1, 0, // plan, include_hidden, prune
        0, 0, 0, 1, 0, 0, 0, 2, 0xc3, 0xa9, // excludes
        0, 0, 0, 1, 0, 0, 0, 1, b'a', 1, 2, 3, 4, 5, 6, 7, 8, 9, 10, 11, 12, // files
        0, 0, 0, 1, 0, 0, 0, 1, b'l', 0, 0, 0, 0, // links
    ];
    assert_eq!(plan().encode(), bytes);
}

#[test]
fn responses_have_these_bytes() {
    assert_eq!(
        Response::HelloOk { agent: 1, proto: 258 }.encode(),
        vec![1, 0, 0, 0, 1, 0, 0, 1, 2]
    );
    assert_eq!(
        Response::Error { message: "no".into() }.encode(),
        vec![3, 0, 0, 0, 2, b'n', b'o']
    );
    let worklist = Response::Worklist {
        uploads: vec!["x".into()],
        created_dirs: 1,
        pruned: 2,
        symlinks: 3,
    };
    assert_eq!(
        worklist.encode(),
        vec![2, 0, 0, 0, 1, 0, 0, 0, 1, b'x', 0, 0, 0, 1, 0, 0, 0, 2, 0, 0, 0, 3]
    );
}

#[test]
fn every_cut_of_a_message_decodes_to_none() {
    let full = plan().encode();
    assert_eq!(Request::decode(&full), Some(plan()));
    for n in 0..full.len() {
        assert!(Request::decode(&full[..n]).is_none());
    }
    let full = Response::Error { message: "no".into() }.encode();
    for n in 0..full.len() {
        assert!(Response::decode(&full[..n]).is_none());
    }
}

#[test]
fn trailing_bytes_are_ignored() {
    let mut bytes = plan().encode();
    bytes.extend_from_slice(&[1, 2, 3]);
    assert_eq!(Request::decode(&bytes), Some(plan()));
}

#[test]
fn unknown_tags_decode_to_none() {
    assert!(Request::decode(&[0]).is_none());
    assert!(Request::decode(&[4, 0, 0, 0, 0]).is_none());
    assert!(Response::decode(&[0, 0, 0, 0, 0]).is_none());
    assert!(Response::decode(&[9]).is_none());
}

#[test]
fn any_byte_but_zero_is_true() {
    let mut bytes = plan().encode();
    bytes[2] = 7;
    match Request::decode(&bytes) {
        Some(Request::Plan { prune, .. }) => assert!(prune),
        other => panic!("expected a plan, got {other:?}"),
    }
}

#[test]
fn invalid_utf8_is_repaired() {
    let bytes = vec![3, 0, 0, 0, 3, b'a', 0xff, b'b'];
    assert_eq!(Response::decode(&bytes), Some(Response::Error { message: "a\u{fffd}b".into() }));
}

#[test]
fn huge_counts_do_not_decode() {
    assert!(Response::decode(&[2, 255, 255, 255, 255]).is_none());
    assert!(Response::decode(&[3, 255, 255, 255, 255, b'x']).is_none());
}

#[test]
fn frames_are_read_one_after_the_other() {
    let mut buf = Vec::new();
    write_frame(&mut buf, b"ab").unwrap();
    write_frame(&mut buf, b"").unwrap();
    assert_eq!(buf, vec![0, 0, 0, 2, b'a', b'b', 0, 0, 0, 0]);
    let mut cursor: &[u8] = &buf;
    assert_eq!(read_frame(&mut cursor).unwrap(), b"ab");
    assert_eq!(read_frame(&mut cursor).unwrap(), b"");
    assert_eq!(read_frame(&mut cursor), Err(FrameError::UnexpectedEof));
}

#[test]
fn cut_frame_is_refused() {
    let mut buf = Vec::new();
    write_frame(&mut buf, b"abc").unwrap();
    for n in 0..buf.len() {
        let mut cursor: &[u8] = &buf[..n];
        assert_eq!(read_frame(&mut cursor), Err(FrameError::UnexpectedEof));
        assert!(cursor.is_empty());
    }
}

#[test]
fn cut_body_costs_its_header() {
    let mut cursor: &[u8] = &[0, 0, 0, 5, 1];
    assert_eq!(read_frame(&mut cursor), Err(FrameError::UnexpectedEof));
    assert!(cursor.is_empty());
}

#[test]
fn frame_header_is_big_endian() {
    assert_eq!(frame_len([0, 0, 1, 2]), 258);
    assert_eq!(frame_len([255, 255, 255, 255]), 0xffff_ffff);
}
