use std::io::ErrorKind;
use wingman_core::runner_io::{
    check_file_io, find_same_file, map_stream_write_error, FileIdentityV1, InputOpenErrorV1, IoPreparationErrorV1,
    SinkWriteErrorV1,
};
use wingman_core::text_stream::TextStreamWriteErrorV1;

fn id(volume: u32, index: u64) -> FileIdentityV1 {
    FileIdentityV1 { volume_serial_number: volume, file_index: index }
}

#[test]
fn same_file_is_the_first_match() {
    let inputs = [id(1, 10), id(2, 20), id(2, 20)];
    assert_eq!(find_same_file(&inputs, id(2, 20)), Some(1));
    assert_eq!(find_same_file(&inputs, id(1, 20)), None);
    assert_eq!(find_same_file(&[], id(1, 10)), None);
}

#[test]
fn input_errors_come_first() {
    let errors = vec![InputOpenErrorV1 { index: 1, kind: ErrorKind::NotFound }];
    assert_eq!(
        check_file_io(errors.clone(), &[id(1, 1)], Some(id(1, 1))),
        Err(IoPreparationErrorV1::Inputs(errors))
    );
}

#[test]
fn output_may_not_overwrite_an_input() {
    assert_eq!(
        check_file_io(Vec::new(), &[id(1, 1), id(1, 2)], Some(id(1, 2))),
        Err(IoPreparationErrorV1::SameFile { input_index: 1 })
    );
    assert_eq!(check_file_io(Vec::new(), &[id(1, 1)], Some(id(2, 1))), Ok(()));
    assert_eq!(check_file_io(Vec::new(), &[id(1, 1)], None), Ok(()));
}

#[test]
fn stream_write_errors_keep_their_kind() {
    assert_eq!(
        map_stream_write_error(TextStreamWriteErrorV1::Io { kind: ErrorKind::BrokenPipe }),
        SinkWriteErrorV1::Io { kind: ErrorKind::BrokenPipe }
    );
}
