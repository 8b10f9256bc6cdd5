use pubsub_wire::codec::Package;

fn check_codec_correct(package: Package, expect_encode_error: bool, expect_decode_error: bool) {
    match package.clone().encode() {
        Ok(bytes) => match Package::decode(bytes) {
            Ok(result_package) => {
                assert_eq!(package, result_package)
            }
            Err(err) => {
                if expect_decode_error {
                    assert!(true);
                } else {
                    assert!(false, "Unexpected decode error: {:?}", err)
                }
            }
        },
        Err(err) => {
            if expect_encode_error {
                assert!(true);
            } else {
                assert!(false, "Unexpected encode error: {:?}", err)
            }
        }
    }
}

#[test]
fn subscription_test() {
    let package = Package::Subscribe {
        topic: "some.topic".to_string(),
        priority: 111,
        is_subscribe: true,
        silent_mod: true,
    };
    check_codec_correct(package, false, false);
}

#[test]
fn subscription_void_topic_test() {
    let package = Package::Subscribe {
        topic: "".to_string(),
        priority: 111,
        is_subscribe: true,
        silent_mod: true,
    };
    check_codec_correct(package, false, false);
}

#[test]
fn service_msg_test() {
    let package = Package::ServiceMsg {
        topic: "some.topic".to_string(),
        priority: 111,
        count: 222,
    };
    check_codec_correct(package, false, false);
}

#[test]
fn service_void_topic_msg_test() {
    let package = Package::ServiceMsg {
        topic: "".to_string(),
        priority: 111,
        count: 222,
    };
    check_codec_correct(package, false, false);
}

#[test]
fn regular_msg_test() {
    let package = Package::RegularMsg {
        topic: "some.topic".to_string(),
        priority: 111,
        content: vec![0, 1, 2, 3, 4, 5],
        cash: true,
        ttl: Some(1),
    };
    check_codec_correct(package, false, false);
}

#[test]
fn regular_void_topic_msg_test() {
    let package = Package::RegularMsg {
        topic: "".to_string(),
        priority: 111,
        content: vec![0, 1, 2, 3, 4, 5],
        cash: true,
        ttl: Some(1),
    };
    check_codec_correct(package, false, false);
}

#[test]
fn regular_void_ttl_msg_test() {
    let package = Package::RegularMsg {
        topic: "".to_string(),
        priority: 111,
        content: vec![0, 1, 2, 3, 4, 5],
        cash: true,
        ttl: None,
    };
    check_codec_correct(package, false, false);
}

#[test]
fn regular_void_content_and_ttl_msg_test() {
    let package = Package::RegularMsg {
        topic: "".to_string(),
        priority: 111,
        content: vec![],
        cash: true,
        ttl: None,
    };
    check_codec_correct(package, false, false);
}

#[test]
fn regular_invalid_ttl_using_msg_test() {
    let package = Package::RegularMsg {
        topic: "".to_string(),
        priority: 111,
        content: vec![],
        cash: false,
        ttl: Some(10),
    };
    check_codec_correct(package, true, false);
}
