use invoker::judge::{FullResult, Verdict};
use invoker::wire::{
    decode_msg, deserialize_msg, encode_error, encode_exited, encode_full_verdict, encode_operror,
    encode_test_verdict, encode_token, serialize_msg, Body, FullVerdict, InMsg,
};

#[test]
fn body_renders_header_then_payload() {
    let mut body = Body::new("TEST");
    body.add_field("ID", "3");
    body.add_field("VERDICT", "OK");
    body.set_data(vec![1, 2, 3]);
    let bytes = body.into_bytes();
    let mut expected = b"TYPE TEST\nID 3\nVERDICT OK\nDATA\n".to_vec();
    expected.extend_from_slice(&[1, 2, 3]);
    assert_eq!(bytes, expected);
}

#[test]
fn body_without_payload_has_no_data_line() {
    let mut body = Body::new("ERROR");
    body.add_field("MESSAGE", "bad");
    assert_eq!(body.into_bytes(), b"TYPE ERROR\nMESSAGE bad\n".to_vec());
}

#[test]
fn add_fields_appends_in_order() {
    let mut body = Body::new("X");
    body.add_fields(vec![
        (String::from("A"), String::from("1")),
        (String::from("B"), String::from("2")),
    ]);
    assert_eq!(body.into_bytes(), b"TYPE X\nA 1\nB 2\n".to_vec());
}

#[test]
fn deserialize_reads_fields_and_payload() {
    let bytes = b"TYPE START\nKEY value\nDATA\n\x01\x02rest";
    let (fields, data) = deserialize_msg(bytes);
    assert_eq!(fields.len(), 2);
    assert_eq!(fields[0].0, b"TYPE".to_vec());
    assert_eq!(fields[0].1, b"START".to_vec());
    assert_eq!(fields[1].0, b"KEY".to_vec());
    assert_eq!(fields[1].1, b"value".to_vec());
    assert_eq!(data, Some(b"\x01\x02rest".to_vec()));
}

#[test]
fn deserialize_without_data_line() {
    let (fields, data) = deserialize_msg(b"TYPE STOP\n");
    assert_eq!(fields.len(), 1);
    assert_eq!(data, None);
    let (none_fields, none_data) = deserialize_msg(b"no newline at all");
    assert_eq!(none_fields.len(), 0);
    assert_eq!(none_data, None);
}

#[test]
fn serialize_then_deserialize_keeps_fields() {
    let fields = vec![
        (b"TYPE".to_vec(), b"TEST".to_vec()),
        (b"ID".to_vec(), b"7".to_vec()),
    ];
    let bytes = serialize_msg(&fields, Some(b"payload".to_vec()));
    assert_eq!(bytes, b"TYPE TEST\nID 7\nDATA\npayload".to_vec());
    let (back, data) = deserialize_msg(&bytes);
    assert_eq!(back, fields);
    assert_eq!(data, Some(b"payload".to_vec()));
}

#[test]
fn decode_recognises_the_three_orders() {
    let (f, d) = deserialize_msg(b"TYPE START\nDATA\nbytes");
    match decode_msg(&f, d) {
        Some(InMsg::Start { data }) => assert_eq!(data, b"bytes".to_vec()),
        _ => panic!("a START frame with a payload starts a judgment"),
    }
    let (f, d) = deserialize_msg(b"TYPE STOP\n");
    assert!(matches!(decode_msg(&f, d), Some(InMsg::Stop)));
    let (f, d) = deserialize_msg(b"TYPE CLOSE\n");
    assert!(matches!(decode_msg(&f, d), Some(InMsg::Close)));
    let (f, d) = deserialize_msg(b"TYPE NONSENSE\n");
    assert!(decode_msg(&f, d).is_none());
    let (f, d) = deserialize_msg(b"TYPE START\n");
    assert!(decode_msg(&f, d).is_none(), "START without a payload is no order");
}

#[test]
fn full_verdict_frame_carries_sum_and_groups() {
    let v = FullVerdict::of_result(&FullResult::Scored { score: 100, groups_score: vec![30, 70] });
    let body = encode_full_verdict(&v);
    assert_eq!(
        body.into_bytes(),
        b"TYPE VERDICT\nNAME OK\nSUM 100\nGROUPS 30 70 \n".to_vec()
    );
}

#[test]
fn compile_error_frame_carries_message() {
    let v = FullVerdict::of_result(&FullResult::Ce(String::from("expected a semicolon")));
    let body = encode_full_verdict(&v);
    assert_eq!(
        body.into_bytes(),
        b"TYPE VERDICT\nNAME CE\nMESSAGE expected a semicolon\n".to_vec()
    );
}

#[test]
fn test_verdict_frame() {
    let body = encode_test_verdict(2, Verdict::Wa, 185, 1024, b"out".to_vec());
    assert_eq!(
        body.into_bytes(),
        b"TYPE TEST\nID 2\nVERDICT WA\nTIME 0.185\nMEMORY 1024\nDATA\nout".to_vec()
    );
}

#[test]
fn service_frames() {
    assert_eq!(
        encode_exited(0, "bye").into_bytes(),
        b"TYPE EXITED\nCODE 0\nMESSAGE bye\n".to_vec()
    );
    assert_eq!(
        encode_error("broken").into_bytes(),
        b"TYPE ERROR\nMESSAGE broken\n".to_vec()
    );
    assert_eq!(
        encode_operror("op").into_bytes(),
        b"TYPE OPERROR\nMESSAGE op\n".to_vec()
    );
    assert_eq!(
        encode_token("123456", "worker-key").into_bytes(),
        b"TYPE TOKEN\nID 123456\nKEY worker-key\n".to_vec()
    );
}
