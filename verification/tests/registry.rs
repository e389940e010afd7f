use fluvio_wire::error::ProtocolError;
use fluvio_wire::frame::{frame, Header};
use fluvio_wire::registry::{standard_registry, ApiSpec, RegistrationError, Registry};
use fluvio_wire::schema::{Field, FieldType};

fn family(api_key: i16, min: i16, default: i16, max: i16) -> ApiSpec {
    ApiSpec {
        api_key,
        min_version: min,
        max_version: max,
        default_version: default,
        request: vec![Field { ty: FieldType::Int32, min_version: 0, max_version: i16::MAX }],
        response: vec![],
    }
}

#[test]
fn a_new_registry_is_empty() {
    let registry = Registry::new();
    assert_eq!(registry.len(), 0);
    assert!(registry.lookup(17).is_none());
    assert_eq!(
        registry.resolve(&Header { api_key: 17, api_version: 0, correlation_id: 0 }),
        Err(ProtocolError::UnknownApiKey)
    );
}

#[test]
fn registered_families_are_found_by_key() {
    let mut registry = Registry::new();
    assert_eq!(registry.register(family(1, 0, 0, 2)), Ok(()));
    assert_eq!(registry.register(family(2, 1, 3, 3)), Ok(()));
    assert_eq!(registry.len(), 2);
    assert_eq!(registry.lookup(1), Some(&family(1, 0, 0, 2)));
    assert_eq!(registry.lookup(2), Some(&family(2, 1, 3, 3)));
    assert_eq!(registry.lookup(3), None);
    assert_eq!(
        registry.resolve(&Header { api_key: 2, api_version: 3, correlation_id: 9 }),
        Ok(&family(2, 1, 3, 3))
    );
}

#[test]
fn a_default_outside_the_range_is_refused() {
    let mut registry = Registry::new();
    assert_eq!(registry.register(family(1, 1, 0, 2)), Err(RegistrationError::InvalidVersions));
    assert_eq!(registry.register(family(1, 0, 3, 2)), Err(RegistrationError::InvalidVersions));
    assert_eq!(registry.register(family(1, 2, 2, 1)), Err(RegistrationError::InvalidVersions));
    assert_eq!(registry.len(), 0);
    assert!(!family(1, 1, 0, 2).is_valid());
    assert!(family(1, 1, 1, 1).is_valid());
}

#[test]
fn a_key_is_registered_once() {
    let mut registry = Registry::new();
    assert_eq!(registry.register(family(1, 0, 0, 0)), Ok(()));
    assert_eq!(registry.register(family(1, 0, 1, 5)), Err(RegistrationError::DuplicateApiKey));
    assert_eq!(registry.len(), 1);
    assert_eq!(registry.lookup(1), Some(&family(1, 0, 0, 0)));
}

#[test]
fn the_standard_registry_knows_the_handshake() {
    let registry = standard_registry();
    assert_eq!(registry.len(), 1);
    let spec = registry.lookup(17).unwrap();
    assert_eq!(spec.api_key, 17);
    assert_eq!((spec.min_version, spec.default_version, spec.max_version), (0, 1, 1));
    assert!(registry.lookup(18).is_none());
}

#[test]
fn receive_fails_as_unframe_does() {
    let registry = standard_registry();
    let bytes = frame(17, 1, 4, &[0, 1, b'x']).unwrap();
    assert_eq!(registry.receive(&bytes[..3]), Err(ProtocolError::Truncated));
    assert_eq!(registry.receive(&bytes[..bytes.len() - 1]), Err(ProtocolError::Truncated));
    assert_eq!(registry.receive(&[0, 0, 0, 1, 0]), Err(ProtocolError::InvalidLength));
    let (taken, spec) = registry.receive(&bytes).unwrap();
    assert_eq!(taken.body, vec![0, 1, b'x']);
    assert_eq!(spec.api_key, 17);
}
