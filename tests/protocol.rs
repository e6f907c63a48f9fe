use changeset_plugin::host::version_from_plugin_output;
use changeset_plugin::messages::{
    deserialize_get_version_request, deserialize_get_version_response,
    serialize_codegen_response, serialize_get_version_request, FileRef, GetVersionRequest,
    GetVersionResponse,
};
use changeset_plugin::plugin::{create_get_version_response, plugin_answer, plugin_start, PluginStep};
use changeset_plugin::ErrorKind;

fn response(v: &str) -> GetVersionResponse {
    GetVersionResponse { version: v.to_string() }
}

fn request(path: Option<&str>) -> GetVersionRequest {
    GetVersionRequest { inputs: path.map(|p| FileRef { path: p.to_string() }) }
}

#[test]
fn response_encoding_is_exact() {
    assert_eq!(serialize_codegen_response(&response("1.2.3")), vec![10, 5, b'1', b'.', b'2', b'.', b'3']);
    assert_eq!(serialize_codegen_response(&response("")), Vec::<u8>::new());
}

#[test]
fn request_encoding_is_exact() {
    assert_eq!(serialize_get_version_request(&request(None)), Vec::<u8>::new());
    assert_eq!(serialize_get_version_request(&request(Some(""))), vec![10, 0]);
    assert_eq!(serialize_get_version_request(&request(Some("V"))), vec![10, 3, 10, 1, b'V']);
}

#[test]
fn non_ascii_text_is_utf8() {
    assert_eq!(serialize_codegen_response(&response("é")), vec![10, 2, 0xC3, 0xA9]);
    assert_eq!(deserialize_get_version_response(&[10, 2, 0xC3, 0xA9]), Ok(response("é")));
}

#[test]
fn long_text_has_multi_byte_length() {
    let text = "x".repeat(200);
    let bytes = serialize_codegen_response(&response(&text));
    assert_eq!(&bytes[..3], &[10, 0xC8, 0x01]);
    assert_eq!(bytes.len(), 203);
    assert_eq!(deserialize_get_version_response(&bytes), Ok(response(&text)));
}

#[test]
fn response_round_trip() {
    for v in ["", "1.2.3", " spaced ", "ünïcødé 版本", "0.0.1-alpha+build.7"] {
        let bytes = serialize_codegen_response(&response(v));
        assert_eq!(deserialize_get_version_response(&bytes), Ok(response(v)));
    }
}

#[test]
fn request_round_trip() {
    for p in [None, Some(""), Some("VERSION"), Some("dir/sub/pyproject.toml"), Some("données")] {
        let bytes = serialize_get_version_request(&request(p));
        assert_eq!(deserialize_get_version_request(&bytes), Ok(request(p)));
    }
}

#[test]
fn malformed_bytes_are_rejected() {
    let cases: Vec<Vec<u8>> = vec![
        vec![0xFF],
        vec![10, 5, b'1'],
        vec![10],
        vec![8, 1],
        vec![10, 1, 0xFF],
        vec![2, 0],
        vec![0x0E, 0],
        vec![0x80; 11],
        vec![0x80, 0x80, 0x80, 0x80, 0x80, 0x80, 0x80, 0x80, 0x80, 0x02],
        vec![0x0C],
    ];
    for b in &cases {
        assert_eq!(deserialize_get_version_response(b), Err(ErrorKind::MalformedMessage), "{:?}", b);
        assert_eq!(deserialize_get_version_request(b), Err(ErrorKind::MalformedMessage), "{:?}", b);
    }
}

#[test]
fn truncated_request_is_rejected() {
    let bytes = serialize_get_version_request(&request(Some("VERSION")));
    for n in 1..bytes.len() {
        assert_eq!(deserialize_get_version_request(&bytes[..n]), Err(ErrorKind::MalformedMessage));
    }
}

#[test]
fn unknown_fields_are_skipped() {
    let base = serialize_codegen_response(&response("1.2.3"));
    let extras: Vec<Vec<u8>> = vec![
        vec![16, 7],
        vec![16, 0xAC, 0x02],
        vec![0x1D, 1, 2, 3, 4],
        vec![0x21, 1, 2, 3, 4, 5, 6, 7, 8],
        vec![0x2A, 2, b'a', b'b'],
    ];
    for u in &extras {
        let mut after = base.clone();
        after.extend_from_slice(u);
        assert_eq!(deserialize_get_version_response(&after), Ok(response("1.2.3")));
        let mut before = u.clone();
        before.extend_from_slice(&base);
        assert_eq!(deserialize_get_version_response(&before), Ok(response("1.2.3")));
        let mut req = u.clone();
        req.extend_from_slice(&serialize_get_version_request(&request(Some("V"))));
        req.extend_from_slice(u);
        assert_eq!(deserialize_get_version_request(&req), Ok(request(Some("V"))));
    }
}

#[test]
fn later_text_field_wins() {
    let bytes = [10, 1, b'a', 10, 1, b'b'];
    assert_eq!(deserialize_get_version_response(&bytes), Ok(response("b")));
}

#[test]
fn repeated_file_ref_is_merged() {
    assert_eq!(deserialize_get_version_request(&[10, 3, 10, 1, b'a', 10, 0]), Ok(request(Some("a"))));
    assert_eq!(
        deserialize_get_version_request(&[10, 3, 10, 1, b'a', 10, 3, 10, 1, b'b']),
        Ok(request(Some("b")))
    );
}

#[test]
fn response_trims_white_space() {
    assert_eq!(create_get_version_response(Some("1.2.3\n")), response("1.2.3"));
    assert_eq!(create_get_version_response(Some(" 2.0.0 \n")), response("2.0.0"));
    assert_eq!(create_get_version_response(Some("\u{3000}\t3.1\u{85}\u{a0}")), response("3.1"));
    assert_eq!(create_get_version_response(Some(" \r\n ")), response(""));
    assert_eq!(create_get_version_response(Some("a b")), response("a b"));
}

#[test]
fn no_inputs_gives_empty_version() {
    assert_eq!(create_get_version_response(None), response(""));
    let input = serialize_get_version_request(&request(None));
    assert_eq!(plugin_start(&input), PluginStep::Respond(vec![]));
}

#[test]
fn plugin_reads_named_file() {
    let input = serialize_get_version_request(&request(Some("VERSION")));
    assert_eq!(plugin_start(&input), PluginStep::ReadFile("VERSION".to_string()));
}

#[test]
fn plugin_fails_on_garbage_input() {
    assert_eq!(plugin_start(&[0xFF, 0xFF]), PluginStep::Fail(ErrorKind::MalformedMessage));
    assert_eq!(plugin_start(&[10, 9, 10]), PluginStep::Fail(ErrorKind::MalformedMessage));
}

#[test]
fn plugin_answers_trimmed_contents() {
    match plugin_answer(Some("1.2.3\n")) {
        PluginStep::Respond(b) => {
            assert_eq!(deserialize_get_version_response(&b), Ok(response("1.2.3")))
        }
        other => panic!("unexpected step {:?}", other),
    }
}

#[test]
fn unreadable_file_is_a_plugin_failure() {
    assert_eq!(plugin_answer(None), PluginStep::Fail(ErrorKind::InputUnreadable));
    let empty = serialize_codegen_response(&response(""));
    assert_eq!(version_from_plugin_output(false, &empty), Err(ErrorKind::PluginProcessFailure));
    assert_eq!(version_from_plugin_output(false, &[0xFF]), Err(ErrorKind::PluginProcessFailure));
}

#[test]
fn host_reads_clean_run() {
    assert_eq!(version_from_plugin_output(true, &[]), Ok(String::new()));
    assert_eq!(version_from_plugin_output(true, &[10, 1, b'7']), Ok("7".to_string()));
    assert_eq!(version_from_plugin_output(true, &[10, 4, b'7']), Err(ErrorKind::MalformedMessage));
    assert_eq!(version_from_plugin_output(true, &[16, 1, 10, 1, b'7', 0x2A, 0]), Ok("7".to_string()));
}

#[test]
fn end_to_end_version_file() {
    let input = serialize_get_version_request(&request(Some("VERSION")));
    let path = match plugin_start(&input) {
        PluginStep::ReadFile(p) => p,
        other => panic!("unexpected step {:?}", other),
    };
    assert_eq!(path, "VERSION");
    let contents = " 2.0.0 \n";
    let out = match plugin_answer(Some(contents)) {
        PluginStep::Respond(b) => b,
        other => panic!("unexpected step {:?}", other),
    };
    assert_eq!(version_from_plugin_output(true, &out), Ok("2.0.0".to_string()));
}

fn nested_groups(depth: usize) -> Vec<u8> {
    let mut b = vec![0x13; depth];
    b.extend(vec![0x14; depth]);
    b
}

#[test]
fn unknown_groups_are_skipped() {
    let group = vec![0x13, 8, 1, 0x0D, 1, 2, 3, 4, 0x14];
    let mut bytes = group.clone();
    bytes.extend_from_slice(&serialize_codegen_response(&response("1.2.3")));
    bytes.extend_from_slice(&group);
    assert_eq!(deserialize_get_version_response(&bytes), Ok(response("1.2.3")));
    let mut req = group.clone();
    req.extend_from_slice(&[10, 3, 10, 1, b'V']);
    assert_eq!(deserialize_get_version_request(&req), Ok(request(Some("V"))));
}

#[test]
fn group_must_close_with_its_own_number() {
    assert_eq!(deserialize_get_version_response(&[0x13, 0x1C]), Err(ErrorKind::MalformedMessage));
    assert_eq!(deserialize_get_version_response(&[0x13, 8, 1]), Err(ErrorKind::MalformedMessage));
    assert_eq!(deserialize_get_version_response(&[0x14]), Err(ErrorKind::MalformedMessage));
}

#[test]
fn group_nesting_is_limited() {
    assert_eq!(deserialize_get_version_response(&nested_groups(100)), Ok(response("")));
    assert_eq!(deserialize_get_version_response(&nested_groups(101)), Err(ErrorKind::MalformedMessage));
    assert_eq!(deserialize_get_version_request(&nested_groups(100)), Ok(request(None)));
    assert_eq!(deserialize_get_version_request(&nested_groups(101)), Err(ErrorKind::MalformedMessage));
}
