use pubsub_wire::codec::{DecodeError, EncodeError, Package};
use pubsub_wire::comparators::compare;

#[test]
fn subscribe_wire_layout() {
    let package = Package::Subscribe {
        topic: "x".to_string(),
        priority: 1,
        is_subscribe: true,
        silent_mod: false,
    };
    let bytes = package.clone().encode().unwrap();
    assert_eq!(bytes, vec![0b0010_0000u8, 1, 1, b'x']);
    assert_eq!(Package::decode(bytes).unwrap(), package);
}

#[test]
fn service_wire_layout() {
    let package = Package::ServiceMsg {
        topic: "".to_string(),
        priority: 0,
        count: 5,
    };
    let bytes = package.encode().unwrap();
    assert_eq!(bytes, vec![0b1000_0000u8, 0, 0, 0, 0, 0, 0, 0, 0, 0, 5]);
}

#[test]
fn regular_wire_layout_with_ttl() {
    let package = Package::RegularMsg {
        topic: "t".to_string(),
        priority: 2,
        content: vec![9],
        cash: true,
        ttl: Some(1),
    };
    let bytes = package.encode().unwrap();
    assert_eq!(
        bytes,
        vec![0b1100_1100u8, 2, 1, b't', 0, 0, 0, 0, 0, 0, 0, 1, 9]
    );
}

#[test]
fn regular_wire_layout_without_ttl() {
    let package = Package::RegularMsg {
        topic: "t".to_string(),
        priority: 2,
        content: vec![9],
        cash: false,
        ttl: None,
    };
    let bytes = package.encode().unwrap();
    assert_eq!(bytes, vec![0b1100_0000u8, 2, 1, b't', 9]);
}

#[test]
fn ttl_without_cash_is_rejected() {
    let package = Package::RegularMsg {
        topic: "".to_string(),
        priority: 0,
        content: vec![],
        cash: false,
        ttl: Some(1),
    };
    assert!(matches!(
        package.encode(),
        Err(EncodeError::TtlNotAvailable)
    ));
}

#[test]
fn too_long_topic_is_rejected() {
    let topic = "a".repeat(256);
    let subscribe = Package::Subscribe {
        topic: topic.clone(),
        priority: 0,
        is_subscribe: true,
        silent_mod: false,
    };
    assert!(matches!(
        subscribe.encode(),
        Err(EncodeError::TooLongTopic)
    ));
    let service = Package::ServiceMsg {
        topic: topic.clone(),
        priority: 0,
        count: 0,
    };
    assert!(matches!(service.encode(), Err(EncodeError::TooLongTopic)));
    let regular = Package::RegularMsg {
        topic,
        priority: 0,
        content: vec![],
        cash: false,
        ttl: None,
    };
    assert!(matches!(regular.encode(), Err(EncodeError::TooLongTopic)));
}

#[test]
fn boundary_topic_length_is_accepted() {
    let package = Package::Subscribe {
        topic: "a".repeat(255),
        priority: 3,
        is_subscribe: false,
        silent_mod: true,
    };
    let bytes = package.clone().encode().unwrap();
    assert_eq!(bytes.len(), 3 + 255);
    assert_eq!(Package::decode(bytes).unwrap(), package);
}

#[test]
fn decode_floor() {
    assert!(matches!(
        Package::decode(vec![]),
        Err(DecodeError::TooShortPackage)
    ));
    assert!(matches!(
        Package::decode(vec![0]),
        Err(DecodeError::TooShortPackage)
    ));
    assert!(matches!(
        Package::decode(vec![0, 0]),
        Err(DecodeError::TooShortPackage)
    ));
}

#[test]
fn truncated_topic_region_is_too_short() {
    assert!(matches!(
        Package::decode(vec![0, 0, 5, b'a']),
        Err(DecodeError::TooShortPackage)
    ));
}

#[test]
fn truncated_counter_is_too_short() {
    assert!(matches!(
        Package::decode(vec![0b1000_0000, 0, 0]),
        Err(DecodeError::TooShortPackage)
    ));
    assert!(matches!(
        Package::decode(vec![0b1100_1100, 0, 0, 0, 0, 0]),
        Err(DecodeError::TooShortPackage)
    ));
}

#[test]
fn invalid_topic_utf8_is_rejected() {
    assert!(matches!(
        Package::decode(vec![0, 0, 1, 0xff]),
        Err(DecodeError::TopicParsingError)
    ));
}

#[test]
fn non_ascii_topic_round_trip() {
    let bytes = vec![0b0010_0000u8, 7, 2, 0xc3, 0xa9];
    let package = Package::decode(bytes.clone()).unwrap();
    assert_eq!(
        package,
        Package::Subscribe {
            topic: "\u{e9}".to_string(),
            priority: 7,
            is_subscribe: true,
            silent_mod: false,
        }
    );
    assert_eq!(package.encode().unwrap(), bytes);
}

#[test]
fn unused_header_bits_are_ignored() {
    let package = Package::decode(vec![0b0000_1111, 4, 0]).unwrap();
    assert_eq!(
        package,
        Package::Subscribe {
            topic: "".to_string(),
            priority: 4,
            is_subscribe: false,
            silent_mod: false,
        }
    );
}

#[test]
fn star_matches_any_middle_segment() {
    assert!(compare("a.*.c", "a.X.c"));
    assert!(compare("a.*.c", "a..c"));
    assert!(compare("a.*.c", "a.#.c"));
    assert!(!compare("a.*.c", "a.x.y.c"));
}

#[test]
fn matcher_is_symmetric() {
    let pairs = [
        ("a.b.c.#", "a.b.c.d.e"),
        ("a.*.c", "a.X.c"),
        ("a.b.c.d", "a.b.c.d.e"),
        ("#", "x.y"),
        ("", "a"),
    ];
    for (a, b) in pairs {
        assert_eq!(compare(a, b), compare(b, a));
    }
}

#[test]
fn hash_matches_everything() {
    assert!(compare("#", ""));
    assert!(compare("#", "x"));
    assert!(compare("x.y", "#"));
}

#[test]
fn error_messages() {
    assert_eq!(
        EncodeError::TooLongTopic.message(),
        "Topic is too long; Max topic length is 255 bytes"
    );
    assert_eq!(
        EncodeError::TtlNotAvailable.message(),
        "Ttl option available only if cash flag enable"
    );
    assert_eq!(
        DecodeError::TooShortPackage.message(),
        "Row package is too short to decode"
    );
    assert_eq!(
        DecodeError::TopicParsingError.message(),
        "Topic region is not valid UTF-8"
    );
}
