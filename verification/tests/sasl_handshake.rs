use fluvio_wire::error::ProtocolError;
use fluvio_wire::frame::{frame, frame_request, unframe, unframe_request};
use fluvio_wire::negotiate::negotiate;
use fluvio_wire::registry::{standard_registry, Request};
use fluvio_wire::sasl_handshake::{
    api_spec, request_fields, response_fields, ErrorCode, KfSaslHandshakeRequest,
    KfSaslHandshakeResponse, API_KEY, DEFAULT_API_VERSION, MAX_API_VERSION, MIN_API_VERSION,
};
use fluvio_wire::schema::{Field, FieldType, Value};

fn plain_request() -> KfSaslHandshakeRequest {
    KfSaslHandshakeRequest { mechanism: "PLAIN".to_string() }
}

fn plain_response() -> KfSaslHandshakeResponse {
    KfSaslHandshakeResponse {
        error_code: ErrorCode::Success,
        mechanisms: vec!["PLAIN".to_string(), "SCRAM-SHA-256".to_string()],
    }
}

#[test]
fn the_family_declares_key_and_versions() {
    assert_eq!(API_KEY, 17);
    assert_eq!(MIN_API_VERSION, 0);
    assert_eq!(MAX_API_VERSION, 1);
    assert_eq!(DEFAULT_API_VERSION, 1);
    let spec = api_spec();
    assert_eq!(spec.api_key, 17);
    assert_eq!((spec.min_version, spec.default_version, spec.max_version), (0, 1, 1));
    assert!(spec.is_valid());
    assert!(spec.supports(0) && spec.supports(1));
    assert!(!spec.supports(2) && !spec.supports(-1));
    assert_eq!(
        request_fields(),
        vec![Field { ty: FieldType::String, min_version: 0, max_version: i16::MAX }]
    );
    assert_eq!(
        response_fields(),
        vec![
            Field { ty: FieldType::Int16, min_version: 0, max_version: i16::MAX },
            Field {
                ty: FieldType::Array(Box::new(FieldType::String)),
                min_version: 0,
                max_version: i16::MAX
            },
        ]
    );
}

#[test]
fn end_to_end_handshake() {
    // the client encodes its request at version 1
    let request_body = plain_request().encode(1).unwrap();
    assert_eq!(request_body, vec![0, 5, b'P', b'L', b'A', b'I', b'N']);
    let on_the_wire = frame_request(API_KEY, 1, 77, "client", &request_body).unwrap();

    // the server takes it apart and decodes it at version 1
    let received = unframe_request(&on_the_wire).unwrap();
    assert_eq!(received.header.api_key, 17);
    assert_eq!(received.header.api_version, 1);
    assert_eq!(received.header.correlation_id, 77);
    assert_eq!(received.client_id, "client");
    let request =
        KfSaslHandshakeRequest::decode(&received.body, received.header.api_version).unwrap();
    assert_eq!(request.mechanism, "PLAIN");

    // the server answers
    let response_body = plain_response().encode(1).unwrap();
    assert_eq!(
        response_body,
        vec![
            0, 0, // no error
            0, 0, 0, 2, // two mechanisms
            0, 5, b'P', b'L', b'A', b'I', b'N', //
            0, 13, b'S', b'C', b'R', b'A', b'M', b'-', b'S', b'H', b'A', b'-', b'2', b'5', b'6',
        ]
    );
    let answer = frame(API_KEY, 1, received.header.correlation_id, &response_body).unwrap();

    // the client decodes the answer and sees both values unchanged
    let taken = unframe(&answer).unwrap();
    assert_eq!(taken.header.correlation_id, 77);
    let response = KfSaslHandshakeResponse::decode(&taken.body, 1).unwrap();
    assert_eq!(response.error_code, ErrorCode::Success);
    assert_eq!(response.error_code.code(), 0);
    assert!(response.error_code.is_success());
    assert_eq!(response.mechanisms, vec!["PLAIN".to_string(), "SCRAM-SHA-256".to_string()]);
    assert_eq!(response, plain_response());
}

#[test]
fn handshake_round_trips_at_every_supported_version() {
    for version in MIN_API_VERSION..=MAX_API_VERSION {
        let body = plain_request().encode(version).unwrap();
        assert_eq!(KfSaslHandshakeRequest::decode(&body, version), Ok(plain_request()));
        let body = plain_response().encode(version).unwrap();
        assert_eq!(KfSaslHandshakeResponse::decode(&body, version), Ok(plain_response()));
    }
}

#[test]
fn a_version_before_the_first_has_no_fields() {
    assert_eq!(plain_request().encode(-1), Ok(vec![]));
    assert_eq!(
        KfSaslHandshakeRequest::decode(&[], -1),
        Ok(KfSaslHandshakeRequest { mechanism: String::new() })
    );
    assert_eq!(plain_response().encode(-1), Ok(vec![]));
    assert_eq!(
        KfSaslHandshakeResponse::decode(&[], -1),
        Ok(KfSaslHandshakeResponse { error_code: ErrorCode::Success, mechanisms: vec![] })
    );
}

#[test]
fn unknown_error_codes_are_kept_as_they_came() {
    let failed = KfSaslHandshakeResponse { error_code: ErrorCode::Unknown(33), mechanisms: vec![] };
    let body = failed.encode(1).unwrap();
    assert_eq!(body, vec![0, 33, 0, 0, 0, 0]);
    let read = KfSaslHandshakeResponse::decode(&body, 1).unwrap();
    assert_eq!(read.error_code, ErrorCode::Unknown(33));
    assert!(!read.error_code.is_success());
    assert_eq!(read.error_code.code(), 33);
    let read = KfSaslHandshakeResponse::decode(&[0xff, 0xfe, 0, 0, 0, 0], 1).unwrap();
    assert_eq!(read.error_code, ErrorCode::Unknown(-2));
}

#[test]
fn error_code_and_number() {
    assert_eq!(ErrorCode::from_code(0), ErrorCode::Success);
    assert_eq!(ErrorCode::from_code(5), ErrorCode::Unknown(5));
    assert_eq!(ErrorCode::from_code(i16::MIN), ErrorCode::Unknown(i16::MIN));
    assert_eq!(ErrorCode::Success.code(), 0);
    assert_eq!(ErrorCode::Unknown(-1).code(), -1);
    for raw in [-3i16, 0, 1, 17, i16::MAX] {
        assert_eq!(ErrorCode::from_code(raw).code(), raw);
    }
}

#[test]
fn a_null_list_of_mechanisms_reads_as_none() {
    let read = KfSaslHandshakeResponse::decode(&[0, 0, 0xff, 0xff, 0xff, 0xff], 1).unwrap();
    assert_eq!(read.error_code, ErrorCode::Success);
    assert!(read.mechanisms.is_empty());
}

#[test]
fn messages_and_values() {
    assert_eq!(plain_request().to_values(), vec![Value::String("PLAIN".to_string())]);
    assert_eq!(
        plain_response().to_values(),
        vec![
            Value::Int16(0),
            Value::Array(vec![
                Value::String("PLAIN".to_string()),
                Value::String("SCRAM-SHA-256".to_string())
            ])
        ]
    );
    assert_eq!(
        KfSaslHandshakeRequest::from_values(&plain_request().to_values()),
        Some(plain_request())
    );
    assert_eq!(
        KfSaslHandshakeResponse::from_values(&plain_response().to_values()),
        Some(plain_response())
    );
    assert_eq!(KfSaslHandshakeRequest::from_values(&vec![]), None);
    assert_eq!(KfSaslHandshakeRequest::from_values(&vec![Value::Int8(1)]), None);
    assert_eq!(
        KfSaslHandshakeRequest::from_values(&vec![
            Value::String("a".to_string()),
            Value::String("b".to_string())
        ]),
        None
    );
    assert_eq!(KfSaslHandshakeResponse::from_values(&vec![Value::Int16(0)]), None);
    assert_eq!(
        KfSaslHandshakeResponse::from_values(&vec![Value::Int32(0), Value::NullArray]),
        None
    );
    assert_eq!(
        KfSaslHandshakeResponse::from_values(&vec![
            Value::Int16(0),
            Value::Array(vec![Value::String("a".to_string()), Value::Int8(0)])
        ]),
        None
    );
    assert_eq!(
        KfSaslHandshakeResponse::from_values(&vec![Value::Int16(9), Value::NullArray]),
        Some(KfSaslHandshakeResponse { error_code: ErrorCode::Unknown(9), mechanisms: vec![] })
    );
}

#[test]
fn malformed_bodies_fail_with_their_cause() {
    assert_eq!(KfSaslHandshakeRequest::decode(&[], 1), Err(ProtocolError::BufferUnderflow));
    assert_eq!(KfSaslHandshakeRequest::decode(&[0, 5, b'P'], 1), Err(ProtocolError::BufferUnderflow));
    assert_eq!(KfSaslHandshakeRequest::decode(&[0xff, 0xff], 1), Err(ProtocolError::InvalidLength));
    assert_eq!(KfSaslHandshakeRequest::decode(&[0, 1, 0xfe], 1), Err(ProtocolError::InvalidUtf8));
    assert_eq!(KfSaslHandshakeResponse::decode(&[0], 1), Err(ProtocolError::BufferUnderflow));
    assert_eq!(
        KfSaslHandshakeResponse::decode(&[0, 0, 0, 0, 0, 1], 1),
        Err(ProtocolError::BufferUnderflow)
    );
    assert_eq!(
        KfSaslHandshakeResponse::decode(&[0, 0, 0, 0, 0, 1, 0xff, 0xff], 1),
        Err(ProtocolError::InvalidLength)
    );
    let long = KfSaslHandshakeRequest { mechanism: "m".repeat(40000) };
    assert_eq!(long.encode(1), Err(ProtocolError::InvalidLength));
}

#[test]
fn negotiated_version_with_older_and_newer_servers() {
    let spec = api_spec();
    assert_eq!(spec.negotiate_with(0, 0), Ok(0));
    assert_eq!(spec.negotiate_with(1, 3), Ok(1));
    assert_eq!(spec.negotiate_with(0, 9), Ok(1));
    assert_eq!(spec.negotiate_with(2, 3), Err(ProtocolError::NoCommonVersion));
    assert_eq!(
        spec.negotiate_with(0, 9),
        negotiate(MIN_API_VERSION, MAX_API_VERSION, 0, 9)
    );
}

#[test]
fn the_registry_decodes_what_the_typed_message_encodes() {
    let registry = standard_registry();
    let body = plain_request().encode(1).unwrap();
    let bytes = frame(API_KEY, 1, 5, &body).unwrap();
    let (taken, spec) = registry.receive(&bytes).unwrap();
    assert_eq!(spec.api_key, API_KEY);
    let values = spec.decode_request(&taken.body, taken.header.api_version).unwrap();
    assert_eq!(values, plain_request().to_values());
    assert_eq!(spec.encode_request(&values, 1), Ok(body));
    let answer = spec.encode_response(&plain_response().to_values(), 1).unwrap();
    assert_eq!(answer, plain_response().encode(1).unwrap());
    assert_eq!(spec.decode_response(&answer, 1), Ok(plain_response().to_values()));
}

#[test]
fn the_request_type_declares_its_family() {
    assert_eq!(<KfSaslHandshakeRequest as Request>::API_KEY, 17);
    assert_eq!(<KfSaslHandshakeRequest as Request>::MIN_API_VERSION, 0);
    assert_eq!(<KfSaslHandshakeRequest as Request>::MAX_API_VERSION, 1);
    assert_eq!(<KfSaslHandshakeRequest as Request>::DEFAULT_API_VERSION, 1);
    let response: <KfSaslHandshakeRequest as Request>::Response = plain_response();
    assert_eq!(response.mechanisms.len(), 2);
}

#[test]
fn without_negotiation_the_default_version_is_used() {
    let spec = api_spec();
    assert_eq!(spec.choose_version(None), Ok(1));
    assert_eq!(spec.choose_version(Some((0, 0))), Ok(0));
    assert_eq!(spec.choose_version(Some((2, 4))), Err(ProtocolError::NoCommonVersion));
}
