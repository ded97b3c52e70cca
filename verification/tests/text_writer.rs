use wingman_core::bridge::reserve_session_generation;
use wingman_core::text_stream::{
    encode_record_stream, RecordFrameV1, RecordStreamWriterV1, TextEncodeErrorV1,
    TextStreamWriteErrorV1, Utf8RecordDecoderV1,
};

fn frame(text: &str, terminated: bool) -> RecordFrameV1 {
    RecordFrameV1 { text: text.to_string(), terminated }
}

#[test]
fn the_writer_releases_only_terminated_records_before_the_end() {
    let mut writer = RecordStreamWriterV1::new();
    assert_eq!(writer.push(frame("a", true)), Ok(None));
    assert_eq!(writer.push(frame("b", false)), Ok(Some(frame("a", true))));
    assert_eq!(
        writer.push(frame("c", true)),
        Err(TextStreamWriteErrorV1::Encode(TextEncodeErrorV1::NonFinalUnterminated { index: 1 }))
    );
    assert_eq!(writer.finish(), Some(frame("b", false)));
}

#[test]
fn encoding_then_decoding_gives_the_records_back() {
    let records = vec![frame("héllo", true), frame("wörld", false)];
    let bytes = encode_record_stream(&records).unwrap();
    let mut decoder = Utf8RecordDecoderV1::new();
    let mut decoded = decoder.push(&bytes).unwrap();
    decoded.extend(decoder.finish().unwrap());
    assert_eq!(decoded, records);
}

#[test]
fn invalid_utf8_is_refused_by_the_decoder() {
    let mut decoder = Utf8RecordDecoderV1::new();
    let pushed = decoder.push(b"ok\xff\n");
    assert!(pushed.is_err());
}

#[test]
fn a_reserved_session_generation_cannot_be_reserved_again() {
    let mut generation = 0u64;
    assert!(reserve_session_generation(&mut generation, 5).is_ok());
    assert_eq!(generation, 5);
    assert_eq!(reserve_session_generation(&mut generation, 5), Err("client session ID is stale".to_string()));
    assert_eq!(generation, 5);
}
