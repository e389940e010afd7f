use fluvio_wire::error::ProtocolError;
use fluvio_wire::frame::{frame, frame_request, unframe, unframe_request, Frame, Header, RequestFrame};
use fluvio_wire::registry::standard_registry;

#[test]
fn frame_is_length_header_body() {
    let bytes = frame(17, 1, 0x0a0b0c0d, &[1, 2, 3]).unwrap();
    assert_eq!(bytes, vec![0, 0, 0, 11, 0, 17, 0, 1, 0x0a, 0x0b, 0x0c, 0x0d, 1, 2, 3]);
}

#[test]
fn length_prefix_covers_all_that_follows() {
    for n in [0usize, 1, 2, 255, 256, 70000] {
        let body = vec![0xabu8; n];
        let bytes = frame(3, 2, -7, &body).unwrap();
        assert_eq!(bytes.len(), 12 + n);
        let declared = i32::from_be_bytes([bytes[0], bytes[1], bytes[2], bytes[3]]);
        assert_eq!(declared as usize, bytes.len() - 4);
    }
}

#[test]
fn unframe_gives_back_what_frame_took() {
    let body = vec![9u8, 8, 7, 6, 5];
    let bytes = frame(-3, 7, i32::MIN, &body).unwrap();
    assert_eq!(
        unframe(&bytes),
        Ok(Frame {
            header: Header { api_key: -3, api_version: 7, correlation_id: i32::MIN },
            body,
        })
    );
}

#[test]
fn unframe_of_an_empty_body() {
    let bytes = frame(1, 0, 5, &[]).unwrap();
    assert_eq!(bytes, vec![0, 0, 0, 8, 0, 1, 0, 0, 0, 0, 0, 5]);
    assert_eq!(
        unframe(&bytes),
        Ok(Frame { header: Header { api_key: 1, api_version: 0, correlation_id: 5 }, body: vec![] })
    );
}

#[test]
fn unframe_leaves_the_next_frame_alone() {
    let mut stream = frame(17, 1, 1, &[1, 2]).unwrap();
    let first_len = stream.len();
    stream.extend(frame(18, 0, 2, &[3]).unwrap());
    let first = unframe(&stream).unwrap();
    assert_eq!(first.header, Header { api_key: 17, api_version: 1, correlation_id: 1 });
    assert_eq!(first.body, vec![1, 2]);
    assert_eq!(first_len, 12 + first.body.len());
    let second = unframe(&stream[first_len..]).unwrap();
    assert_eq!(second.header, Header { api_key: 18, api_version: 0, correlation_id: 2 });
    assert_eq!(second.body, vec![3]);
}

#[test]
fn every_proper_prefix_of_a_frame_is_truncated() {
    let bytes = frame(17, 1, 42, &[1, 2, 3, 4, 5, 6, 7]).unwrap();
    for n in 0..bytes.len() {
        assert_eq!(unframe(&bytes[..n]), Err(ProtocolError::Truncated), "prefix of {} bytes", n);
    }
    assert!(unframe(&bytes).is_ok());
}

#[test]
fn declared_length_too_small_for_a_header_is_invalid() {
    assert_eq!(unframe(&[0, 0, 0, 7, 0, 1, 0, 0, 0, 0, 0]), Err(ProtocolError::InvalidLength));
    assert_eq!(unframe(&[0, 0, 0, 0]), Err(ProtocolError::InvalidLength));
    assert_eq!(
        unframe(&[0xff, 0xff, 0xff, 0xff, 0, 1, 0, 0, 0, 0, 0, 0]),
        Err(ProtocolError::InvalidLength)
    );
}

#[test]
fn unknown_api_key_is_found_at_lookup_not_at_unframe() {
    let bytes = frame(9999, 0, 1, &[1]).unwrap();
    let taken = unframe(&bytes).unwrap();
    assert_eq!(taken.header.api_key, 9999);
    assert_eq!(taken.body, vec![1]);
    let registry = standard_registry();
    assert!(registry.lookup(9999).is_none());
    assert_eq!(registry.resolve(&taken.header), Err(ProtocolError::UnknownApiKey));
    assert_eq!(registry.receive(&bytes), Err(ProtocolError::UnknownApiKey));
}

#[test]
fn request_frame_carries_the_client_id() {
    let bytes = frame_request(17, 1, 3, "cli", &[0xaa, 0xbb]).unwrap();
    assert_eq!(
        bytes,
        vec![0, 0, 0, 15, 0, 17, 0, 1, 0, 0, 0, 3, 0, 3, b'c', b'l', b'i', 0xaa, 0xbb]
    );
    assert_eq!(
        unframe_request(&bytes),
        Ok(RequestFrame {
            header: Header { api_key: 17, api_version: 1, correlation_id: 3 },
            client_id: "cli".to_string(),
            body: vec![0xaa, 0xbb],
        })
    );
}

#[test]
fn request_frame_fails_as_its_parts_do() {
    let long = "x".repeat(0x8000);
    assert_eq!(frame_request(1, 1, 1, &long, &[]), Err(ProtocolError::InvalidLength));
    // a frame whose body is too short to hold the client id
    let no_id = frame(1, 1, 1, &[0]).unwrap();
    assert_eq!(unframe_request(&no_id), Err(ProtocolError::BufferUnderflow));
    let null_id = frame(1, 1, 1, &[0xff, 0xff]).unwrap();
    assert_eq!(unframe_request(&null_id), Err(ProtocolError::InvalidLength));
    let bad_id = frame(1, 1, 1, &[0, 1, 0xff]).unwrap();
    assert_eq!(unframe_request(&bad_id), Err(ProtocolError::InvalidUtf8));
    assert_eq!(unframe_request(&no_id[..5]), Err(ProtocolError::Truncated));
}
