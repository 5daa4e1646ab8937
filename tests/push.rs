use hg_stdio::push::{is_bundle2, payload_header, payload_trailer_bytes, PushAction, PushHandshake, PushStage};

#[test]
fn short_payload_is_never_bundle2() {
    assert!(!is_bundle2(4, b"HG20"));
    assert!(!is_bundle2(0, b""));
    assert!(!is_bundle2(3, b"HG2"));
}

#[test]
fn bundle2_prefix_detected() {
    assert!(is_bundle2(5, b"HG20"));
    assert!(is_bundle2(100, b"HG20\0\0\0\0"));
}

#[test]
fn other_prefix_is_not_bundle2() {
    assert!(!is_bundle2(100, b"HG10"));
    assert!(!is_bundle2(100, b"hg20"));
    assert!(!is_bundle2(100, b"HG2"));
}

#[test]
fn payload_framing() {
    assert_eq!(payload_header(10), b"10\n".to_vec());
    assert_eq!(payload_header(0), b"0\n".to_vec());
    assert_eq!(payload_trailer_bytes(), b"0\n".to_vec());
}

#[test]
fn plain_push_returns_final_reply() {
    let mut push = PushHandshake::new(10, b"abcdefghij");
    assert!(!push.bundle2);
    match push.on_response(Vec::new()) {
        PushAction::SendPayloadThenRead { header, trailer } => {
            assert_eq!(header, b"10\n".to_vec());
            assert_eq!(trailer, b"0\n".to_vec());
        }
        _ => panic!("expected the payload to be sent"),
    }
    assert!(matches!(push.on_response(b"adding changesets\n".to_vec()), PushAction::ReadResponse));
    match push.on_response(b"ok".to_vec()) {
        PushAction::Complete { output, result } => {
            assert_eq!(result, b"ok".to_vec());
            assert_eq!(output, b"adding changesets\n".to_vec());
        }
        _ => panic!("expected the push to complete"),
    }
    assert_eq!(push.stage, PushStage::Done);
}

#[test]
fn bundle2_push_streams_reply() {
    let mut push = PushHandshake::new(12, b"HG20\0\0");
    assert!(push.bundle2);
    match push.on_response(Vec::new()) {
        PushAction::SendPayloadThenStream { header, trailer } => {
            assert_eq!(header, b"12\n".to_vec());
            assert_eq!(trailer, b"0\n".to_vec());
        }
        _ => panic!("expected the payload to be sent"),
    }
    assert_eq!(push.stage, PushStage::Done);
}

#[test]
fn non_empty_ack_rejects_push() {
    let mut push = PushHandshake::new(10, b"abcdefghij");
    match push.on_response(b"repository changed while pushing".to_vec()) {
        PushAction::Rejected { ack } => assert_eq!(ack, b"repository changed while pushing".to_vec()),
        _ => panic!("expected a rejection"),
    }
    assert_eq!(push.stage, PushStage::Done);
}
