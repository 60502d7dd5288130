use saytype::onnx::{
    check_onnx_file, has_envelope, is_plausible_onnx, unreadable, walk, CorruptModel, Envelope, Got,
    ModelError, ModelRead, Need, ReadFault, Walker,
};

/// A minimal structurally-valid ONNX-like protobuf: ir_version=3,
/// then a length-delimited field (graph) and a varint field.
fn valid_envelope() -> Vec<u8> {
    vec![
        0x08, // field 1 (ir_version), wire 0
        0x03, // value 3
        0x42, // field 8 (graph), wire 2
        0x02, // length 2
        b'g', b'r', 0x18, // field 3 (model_version), wire 0
        0x05, // value 5
    ]
}

#[test]
fn valid_envelope_accepted() {
    assert!(is_plausible_onnx(&valid_envelope()[..]).unwrap());
}

#[test]
fn empty_file_rejected() {
    assert!(!is_plausible_onnx(&b""[..]).unwrap());
}

#[test]
fn non_onnx_garbage_rejected_on_first_byte() {
    // Random bytes fail the first-byte test (0xAB is not the 0x08 tag).
    assert!(!is_plausible_onnx(&vec![0xAB; 100][..]).unwrap());
    // A length-delimited file whose first field is not field 1.
    assert!(!is_plausible_onnx(&[0x12, 0x02, 0x78, 0x79][..]).unwrap());
}

#[test]
fn truncated_payload_rejected() {
    let mut v = valid_envelope();
    // Cut inside the 2-byte graph payload.
    v.truncate(v.len() - 1);
    assert!(!is_plausible_onnx(&v[..]).unwrap());
}

#[test]
fn truncated_length_varint_rejected() {
    let mut v = valid_envelope();
    // Keep the graph tag but drop its length byte.
    v.truncate(3);
    assert!(!is_plausible_onnx(&v[..]).unwrap());
}

#[test]
fn dangling_first_field_rejected() {
    // Tag 0x08 with its varint value missing.
    assert!(!is_plausible_onnx(&[0x08][..]).unwrap());
    // Continuation bit set, file ends: truncated varint.
    assert!(!is_plausible_onnx(&[0x08, 0x80][..]).unwrap());
}

#[test]
fn reserved_wire_type_rejected() {
    // Field 1 again with wire type 3 (group start): reserved.
    let v = [0x08, 0x03, 0x0B, 0x01];
    assert!(!is_plausible_onnx(&v[..]).unwrap());
}

#[test]
fn fixed_width_fields_accepted_and_truncation_rejected() {
    // The two remaining wire types the envelope walker accepts are the
    // fixed-width ones: wire type 1 (fixed 64-bit, skip 8 bytes) and wire
    // type 5 (fixed 32-bit, skip 4 bytes). A full field of the right
    // width walks cleanly; a file ending inside the fixed payload is the
    // interrupted-download truncation case (Ok(false), not an I/O error).
    // Field 2, wire type 1 -> tag 0x11, then exactly 8 payload bytes.
    let fixed64 = [0x08, 0x03, 0x11, 0u8, 0, 0, 0, 0, 0, 0, 0];
    assert!(is_plausible_onnx(&fixed64[..]).unwrap());
    // Same tag but only 3 of the 8 payload bytes present: truncated.
    assert!(!is_plausible_onnx(&fixed64[..6][..]).unwrap());
    // Field 2, wire type 5 -> tag 0x15, then exactly 4 payload bytes.
    let fixed32 = [0x08, 0x03, 0x15, 0u8, 0, 0, 0];
    assert!(is_plausible_onnx(&fixed32[..]).unwrap());
    // Same tag but only 2 of the 4 payload bytes present: truncated.
    assert!(!is_plausible_onnx(&fixed32[..5][..]).unwrap());
}

#[test]
fn multi_byte_varint_tag_and_value_accepted() {
    // A top-level field number >= 16 encodes its tag as a multi-byte
    // varint (field 16, wire type 0 -> tag bytes 0x80 0x01); real
    // protobuf messages use these, so the envelope must accept them.
    let tag = [0x08, 0x03, 0x80, 0x01, 0x01];
    assert!(is_plausible_onnx(&tag[..]).unwrap());
    // A multi-byte varint *value* (ir_version = 300 = 0xAC 0x02) too.
    let value = [0x08, 0xAC, 0x02, 0x18, 0x05];
    assert!(is_plausible_onnx(&value[..]).unwrap());
    // A multi-byte tag on a length-delimited field (field 16, wire 2).
    let tag_len = [0x08, 0x03, 0x82, 0x01, 0x02, b'x', b'y'];
    assert!(is_plausible_onnx(&tag_len[..]).unwrap());
}

#[test]
fn over_long_varint_is_not_onnx_not_io_error() {
    // A varint whose first 5 bytes all carry the continuation bit never
    // terminates within the 5-byte cap: malformed protobuf, classified
    // as "not an ONNX file" (Ok(false)) rather than an I/O error, so
    // check_onnx_file yields the re-download hint.
    let malformed = [0x08, 0x80, 0x80, 0x80, 0x80, 0x80, 0x01];
    assert!(!is_plausible_onnx(&malformed[..]).unwrap());
}

/// Walks over `bytes` in one pass, as from a file, without having them all at
/// hand.
fn walk_stream(bytes: &[u8]) -> Envelope {
    let mut walker = Walker::new();
    let mut left = bytes.iter();
    loop {
        match walker.need() {
            Need::Byte => walker.step(match left.next() {
                Some(b) => Got::Byte(*b),
                None => Got::End,
            }),
            Need::Skip(n) => {
                let mut skipped = 0;
                while skipped < n && left.next().is_some() {
                    skipped += 1;
                }
                walker.step(if skipped == n { Got::Skipped } else { Got::Short });
            }
            Need::Done(found) => return found,
        }
    }
}

#[test]
fn walks_tell_the_kinds_of_damage_apart() {
    let cases: Vec<(Vec<u8>, Envelope)> = vec![
        (valid_envelope(), Envelope::Plausible),
        (vec![0x08, 0x03], Envelope::Plausible),
        (vec![], Envelope::Wrong),
        (vec![0x12, 0x02], Envelope::Wrong),
        (vec![0x08, 0x03, 0x0B, 0x01], Envelope::Wrong),
        (vec![0x08, 0x03, 0x0C], Envelope::Wrong),
        (vec![0x08, 0x03, 0x0E], Envelope::Wrong),
        (vec![0x08, 0x03, 0x0F], Envelope::Wrong),
        (vec![0x08], Envelope::Truncated),
        (vec![0x08, 0x80], Envelope::Truncated),
        (vec![0x08, 0x03, 0x80], Envelope::Truncated),
        (vec![0x08, 0x03, 0x10], Envelope::Truncated),
        (vec![0x08, 0x03, 0x12], Envelope::Truncated),
        (vec![0x08, 0x03, 0x12, 0x05, 1, 2, 3, 4], Envelope::Truncated),
        (vec![0x08, 0x03, 0x12, 0x00], Envelope::Plausible),
        (vec![0x08, 0x80, 0x80, 0x80, 0x80, 0x80, 0x01], Envelope::Malformed),
        (vec![0x08, 0x03, 0xFF, 0xFF, 0xFF, 0xFF, 0xFF], Envelope::Malformed),
        // The largest length that five bytes can hold.
        (vec![0x08, 0x03, 0x12, 0xFF, 0xFF, 0xFF, 0xFF, 0x7F, 0], Envelope::Truncated),
    ];
    for (bytes, expected) in cases {
        assert_eq!(walk(&bytes), expected, "{bytes:?}");
        assert_eq!(walk_stream(&bytes), expected, "{bytes:?}");
        assert_eq!(
            is_plausible_onnx(&bytes),
            Ok(expected == Envelope::Plausible),
            "{bytes:?}"
        );
    }
}

#[test]
fn lengths_are_base_128() {
    // 300 = 0xAC 0x02.
    let mut v = vec![0x08, 0x03, 0x12, 0xAC, 0x02];
    v.extend(vec![7u8; 300]);
    assert_eq!(walk(&v), Envelope::Plausible);
    v.pop();
    assert_eq!(walk(&v), Envelope::Truncated);
    v.extend([7, 0x18]);
    assert_eq!(walk(&v), Envelope::Truncated);
}

#[test]
fn cut_files_pass_only_at_field_boundaries() {
    let v = valid_envelope();
    let boundaries = [2usize, 6, 8];
    for cut in 0..=v.len() {
        assert_eq!(
            is_plausible_onnx(&v[..cut]).unwrap(),
            boundaries.contains(&cut),
            "cut at {cut}"
        );
    }
}

#[test]
fn read_faults_fold_into_not_onnx_or_stay_errors() {
    assert_eq!(unreadable(ReadFault::UnexpectedEof), Ok(false));
    assert_eq!(unreadable(ReadFault::InvalidData), Ok(false));
    assert_eq!(unreadable(ReadFault::Other), Err(ReadFault::Other));
}

#[test]
fn check_onnx_file_reports_missing_and_corrupt() {
    let err = check_onnx_file(
        "/tmp/nope.onnx",
        "VAD model",
        ModelRead::NotOpened("No such file".into()),
    )
    .unwrap_err();
    assert_eq!(err.message(), "opening VAD model /tmp/nope.onnx");
    assert!(!err.is_corrupt());

    let err = check_onnx_file("/m/x.onnx", "VAD model", ModelRead::NotRead("I/O".into())).unwrap_err();
    assert_eq!(
        err,
        ModelError::Unreadable {
            context: "reading VAD model /m/x.onnx".into(),
            cause: "I/O".into()
        }
    );

    let plausible = is_plausible_onnx(&vec![0u8; 64]).unwrap();
    let err = check_onnx_file("/tmp/garbage.onnx", "VAD model", ModelRead::Read(plausible)).unwrap_err();
    assert!(err.is_corrupt());
    assert_eq!(
        err.message(),
        "VAD model /tmp/garbage.onnx is not a valid ONNX model (corrupt or incomplete - an \
         interrupted download?); delete it and re-run scripts/download-models.sh"
    );
    assert_eq!(CorruptModel.message(), "corrupt model file");
}

#[test]
fn check_onnx_file_accepts_valid() {
    let plausible = is_plausible_onnx(&valid_envelope()).unwrap();
    assert_eq!(check_onnx_file("/tmp/good.onnx", "VAD model", ModelRead::Read(plausible)), Ok(()));
}

#[test]
fn only_onnx_files_have_an_envelope() {
    assert!(has_envelope("encoder.int8.onnx"));
    assert!(!has_envelope("encoder_model.ort"));
    assert!(!has_envelope("onnx"));
}
