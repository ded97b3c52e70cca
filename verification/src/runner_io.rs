//! The files a read-only run reads and writes: where output is redirected, what can go wrong
//! when the files are opened, and the check that output does not overwrite an input.

use vstd::prelude::*;
use crate::text_stream::{TextEncodeErrorV1, TextStreamWriteErrorV1};

verus! {

#[derive(Clone, Copy, Debug, Eq, PartialEq, Structural)]
pub enum RedirectModeV1 {
    Overwrite,
    Append,
}

/// Where output is redirected: a resolved native path, and how the file is written.
#[derive(Clone, Debug, Eq, PartialEq)]
pub struct RedirectSpecV1 {
    pub path: String,
    pub mode: RedirectModeV1,
}

#[derive(Clone, Debug, Eq, PartialEq)]
pub struct InputOpenErrorV1 {
    pub index: usize,
    pub kind: std::io::ErrorKind,
}

#[derive(Clone, Debug, Eq, PartialEq)]
pub enum IoPreparationErrorV1 {
    Inputs(Vec<InputOpenErrorV1>),
    Output { kind: std::io::ErrorKind },
    OutputReparsePoint,
    SameFile { input_index: usize },
}

#[derive(Clone, Debug, Eq, PartialEq)]
pub enum SinkWriteErrorV1 {
    Encode(TextEncodeErrorV1),
    Io { kind: std::io::ErrorKind },
}

/// Which file an open handle is: its volume and its index on the volume.
#[derive(Clone, Copy, Debug, Eq, PartialEq, Structural)]
pub struct FileIdentityV1 {
    pub volume_serial_number: u32,
    pub file_index: u64,
}

/// Whether two files are on the same volume.
pub fn identities_share_volume(left: FileIdentityV1, right: FileIdentityV1) -> (r: bool)
    ensures
        r == (left.volume_serial_number == right.volume_serial_number),
{
    left.volume_serial_number == right.volume_serial_number
}

/// A failed write of the record stream, as the sink reports it.
pub fn map_stream_write_error(error: TextStreamWriteErrorV1) -> (r: SinkWriteErrorV1)
    ensures
        match error {
            TextStreamWriteErrorV1::Encode(e) => r == SinkWriteErrorV1::Encode(e),
            TextStreamWriteErrorV1::Io { kind } => r == (SinkWriteErrorV1::Io { kind }),
        },
{
    match error {
        TextStreamWriteErrorV1::Encode(e) => SinkWriteErrorV1::Encode(e),
        TextStreamWriteErrorV1::Io { kind } => SinkWriteErrorV1::Io { kind },
    }
}

/// The first input that is the same file as the output, if any.
pub fn find_same_file(inputs: &[FileIdentityV1], output: FileIdentityV1) -> (r: Option<usize>)
    ensures
        match r {
            Some(i) => i < inputs@.len() && inputs@[i as int] == output
                && forall|j: int| 0 <= j < i ==> inputs@[j] != output,
            None => forall|j: int| 0 <= j < inputs@.len() ==> inputs@[j] != output,
        },
{
    let mut i: usize = 0;
    while i < inputs.len()
        invariant
            i <= inputs@.len(),
            forall|j: int| 0 <= j < i ==> inputs@[j] != output,
        decreases inputs.len() - i,
    {
        if inputs[i] == output {
            return Some(i);
        }
        i += 1;
    }
    None
}

/// The check before output is opened: every input opened (else the errors of those that did
/// not, by position), and the output no input (else the first such input).
pub fn check_file_io(input_errors: Vec<InputOpenErrorV1>, inputs: &[FileIdentityV1], output: Option<FileIdentityV1>)
    -> (r: Result<(), IoPreparationErrorV1>)
    ensures
        input_errors@.len() > 0 ==> r == Err::<(), _>(IoPreparationErrorV1::Inputs(input_errors)),
        input_errors@.len() == 0 ==> match output {
            None => r is Ok,
            Some(o) => if exists|j: int| 0 <= j < inputs@.len() && inputs@[j] == o {
                r matches Err(IoPreparationErrorV1::SameFile { input_index }) && input_index < inputs@.len()
                    && inputs@[input_index as int] == o
                    && forall|j: int| 0 <= j < input_index ==> inputs@[j] != o
            } else {
                r is Ok
            },
        },
{
    if input_errors.len() > 0 {
        return Err(IoPreparationErrorV1::Inputs(input_errors));
    }
    match output {
        None => Ok(()),
        Some(o) => match find_same_file(inputs, o) {
            Some(input_index) => Err(IoPreparationErrorV1::SameFile { input_index }),
            None => Ok(()),
        },
    }
}

} // verus!
