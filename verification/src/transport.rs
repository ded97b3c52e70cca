//! The frames a shell sends to announce that its line editor is ready, and request ids.

use vstd::prelude::*;
use vstd::utf8::encode_utf8;
use crate::catalog::{decimal_value, unsigned_digits};
use crate::interpreter::ActiveShell;
use crate::text::{all_digits, byte_len, chars_of, eq_str, is_digit, owned, string_of};

verus! {

pub const REQUEST_ID_BYTES: usize = 32;
pub const MAX_READINESS_FRAME_BYTES: usize = 256;
pub const MAX_POWERSHELL_NESTED_DEPTH: u32 = 16;

#[derive(Clone, Copy, Debug, Eq, PartialEq, Structural)]
pub enum EditorLocationKindV1 {
    FileSystem,
    NonFileSystem,
}

#[derive(Clone, Copy, Debug, Eq, PartialEq, Structural)]
pub enum EditorAdapterCapabilityV1 {
    PsReadLineReplaceV1,
}

#[derive(Clone, Debug, Eq, PartialEq)]
pub struct EditorReadinessFrameV1 {
    pub nonce: String,
    pub sequence: u64,
    pub shell: ActiveShell,
    pub shell_depth: u32,
    pub location_kind: EditorLocationKindV1,
    pub adapter_capability: EditorAdapterCapabilityV1,
}

/// Why a readiness frame is refused; each is reported as invalid data.
#[derive(Clone, Copy, Debug, Eq, PartialEq, Structural)]
pub enum ReadinessFrameErrorV1 {
    InvalidFrame,
    InvalidSequence,
    InvalidShell,
    InvalidShellDepth,
    ShellDepthTooDeep,
    InvalidLocation,
    InvalidCapability,
}

impl ReadinessFrameErrorV1 {
    /// The error's message.
    pub fn message(self) -> (r: &'static str)
        ensures
            r@ == readiness_message(self),
    {
        match self {
            ReadinessFrameErrorV1::InvalidFrame => "invalid editor readiness frame",
            ReadinessFrameErrorV1::InvalidSequence => "invalid editor readiness sequence",
            ReadinessFrameErrorV1::InvalidShell => "invalid editor readiness shell",
            ReadinessFrameErrorV1::InvalidShellDepth => "invalid editor readiness shell depth",
            ReadinessFrameErrorV1::ShellDepthTooDeep => "editor readiness shell depth exceeds the supported limit",
            ReadinessFrameErrorV1::InvalidLocation => "invalid editor readiness location",
            ReadinessFrameErrorV1::InvalidCapability => "invalid editor readiness capability",
        }
    }
}

pub open spec fn readiness_message(e: ReadinessFrameErrorV1) -> Seq<char> {
    match e {
        ReadinessFrameErrorV1::InvalidFrame => "invalid editor readiness frame"@,
        ReadinessFrameErrorV1::InvalidSequence => "invalid editor readiness sequence"@,
        ReadinessFrameErrorV1::InvalidShell => "invalid editor readiness shell"@,
        ReadinessFrameErrorV1::InvalidShellDepth => "invalid editor readiness shell depth"@,
        ReadinessFrameErrorV1::ShellDepthTooDeep => "editor readiness shell depth exceeds the supported limit"@,
        ReadinessFrameErrorV1::InvalidLocation => "invalid editor readiness location"@,
        ReadinessFrameErrorV1::InvalidCapability => "invalid editor readiness capability"@,
    }
}

pub open spec fn is_hex_byte(b: u8) -> bool {
    (0x30 <= b <= 0x39) || (0x41 <= b <= 0x46) || (0x61 <= b <= 0x66)
}

/// 32 bytes, each an ASCII hexadecimal digit.
pub open spec fn spec_valid_nonce(s: Seq<char>) -> bool {
    let b = encode_utf8(s);
    b.len() == REQUEST_ID_BYTES && forall|i: int| 0 <= i < b.len() ==> is_hex_byte(#[trigger] b[i])
}

/// Whether `nonce` is 32 ASCII hexadecimal digits.
pub fn is_valid_nonce(nonce: &str) -> (r: bool)
    ensures
        r == spec_valid_nonce(nonce@),
{
    let b = nonce.as_bytes();
    if b.len() != REQUEST_ID_BYTES {
        return false;
    }
    let mut i: usize = 0;
    while i < b.len()
        invariant
            i <= b@.len(),
            b@ == encode_utf8(nonce@),
            forall|j: int| 0 <= j < i ==> is_hex_byte(#[trigger] b@[j]),
        decreases b.len() - i,
    {
        let x = b[i];
        if !((0x30 <= x && x <= 0x39) || (0x41 <= x && x <= 0x46) || (0x61 <= x && x <= 0x66)) {
            assert(!is_hex_byte(b@[i as int]));
            return false;
        }
        i += 1;
    }
    true
}

/// A prepared request id is refused unless it is 32 ASCII hexadecimal digits.
#[derive(Clone, Copy, Debug, Eq, PartialEq)]
pub struct InvalidRequestIdV1;

pub fn validate_request_id(request_id: &str) -> (r: Result<(), InvalidRequestIdV1>)
    ensures
        r is Ok <==> spec_valid_nonce(request_id@),
{
    if is_valid_nonce(request_id) { Ok(()) } else { Err(InvalidRequestIdV1) }
}

/// Splits `s[i..]` at `;`, after the field begun in `current`.
pub open spec fn fields_from(s: Seq<char>, i: int, current: Seq<char>, fields: Seq<Seq<char>>) -> Seq<Seq<char>>
    decreases s.len() - i,
{
    if i < 0 || i >= s.len() {
        fields.push(current)
    } else if s[i] == ';' {
        fields_from(s, i + 1, seq![], fields.push(current))
    } else {
        fields_from(s, i + 1, current.push(s[i]), fields)
    }
}

/// The fields of `s` between `;` separators, as `str::split(';')` gives them.
pub open spec fn split_fields(s: Seq<char>) -> Seq<Seq<char>> {
    fields_from(s, 0, seq![], seq![])
}

fn split_semicolons(s: &[char]) -> (r: Vec<Vec<char>>)
    ensures
        r@.map_values(|v: Vec<char>| v@) == split_fields(s@),
{
    let mut fields: Vec<Vec<char>> = Vec::new();
    let mut current: Vec<char> = Vec::new();
    let mut i: usize = 0;
    assert(fields@.map_values(|v: Vec<char>| v@) =~= Seq::<Seq<char>>::empty());
    assert(current@ =~= Seq::<char>::empty());
    while i < s.len()
        invariant
            i <= s@.len(),
            split_fields(s@) == fields_from(s@, i as int, current@, fields@.map_values(|v: Vec<char>| v@)),
        decreases s.len() - i,
    {
        if s[i] == ';' {
            let ghost before = fields@;
            let w = current;
            fields.push(w);
            assert(fields@.map_values(|v: Vec<char>| v@) =~= before.map_values(|v: Vec<char>| v@).push(w@));
            current = Vec::new();
            assert(current@ =~= Seq::<char>::empty());
        } else {
            current.push(s[i]);
        }
        i += 1;
    }
    let ghost before = fields@;
    let w = current;
    fields.push(w);
    assert(fields@.map_values(|v: Vec<char>| v@) =~= before.map_values(|v: Vec<char>| v@).push(w@));
    fields
}

/// Parses decimal text as `str::parse` does for an unsigned type whose largest value is `max`.
pub open spec fn spec_parse_unsigned(s: Seq<char>, max: nat) -> Option<nat> {
    let digits = unsigned_digits(s);
    if digits.len() == 0 || !all_digits(digits) || decimal_value(digits) > max {
        None
    } else {
        Some(decimal_value(digits))
    }
}

fn parse_u64(s: &[char]) -> (r: Option<u64>)
    ensures
        match spec_parse_unsigned(s@, u64::MAX as nat) {
            Some(v) => r == Some(v as u64),
            None => r is None,
        },
{
    let start: usize = if s.len() > 0 && s[0] == '+' { 1 } else { 0 };
    let ghost digits = unsigned_digits(s@);
    assert(digits =~= s@.skip(start as int));
    if start >= s.len() {
        return None;
    }
    let mut value: u64 = 0;
    let mut i = start;
    while i < s.len()
        invariant
            start <= i <= s@.len(),
            start == (if s@.len() > 0 && s@[0] == '+' { 1usize } else { 0usize }),
            digits == unsigned_digits(s@),
            digits == s@.skip(start as int),
            forall|k: int| 0 <= k < i - start ==> is_digit(#[trigger] digits[k]),
            value == decimal_value(digits.take(i - start)),
        decreases s.len() - i,
    {
        let c = s[i];
        assert(digits[i - start] == c);
        if !('0' <= c && c <= '9') {
            assert(!is_digit(digits[i - start]));
            assert(!all_digits(digits));
            return None;
        }
        let d: u64 = ((c as u32) - ('0' as u32)) as u64;
        assert(digits.take(i + 1 - start).drop_last() =~= digits.take(i - start));
        assert(decimal_value(digits.take(i + 1 - start)) == value * 10 + d);
        if value > (u64::MAX - d) / 10 {
            assert(value * 10 + d > u64::MAX) by (nonlinear_arith)
                requires value > (u64::MAX - d) / 10, d <= 9;
            proof {
                if all_digits(digits) {
                    crate::catalog::lemma_decimal_prefix_monotone(digits, i + 1 - start);
                }
            }
            return None;
        }
        assert(value * 10 + d <= u64::MAX) by (nonlinear_arith)
            requires value <= (u64::MAX - d) / 10, d <= 9;
        value = value * 10 + d;
        i += 1;
    }
    assert(digits.take(i - start) =~= digits);
    Some(value)
}

pub struct SpecReadinessFrame {
    pub nonce: Seq<char>,
    pub sequence: u64,
    pub shell: ActiveShell,
    pub shell_depth: u32,
    pub location_kind: EditorLocationKindV1,
    pub adapter_capability: EditorAdapterCapabilityV1,
}

impl View for EditorReadinessFrameV1 {
    type V = SpecReadinessFrame;

    open spec fn view(&self) -> SpecReadinessFrame {
        SpecReadinessFrame {
            nonce: self.nonce@,
            sequence: self.sequence,
            shell: self.shell,
            shell_depth: self.shell_depth,
            location_kind: self.location_kind,
            adapter_capability: self.adapter_capability,
        }
    }
}

/// A readiness line: non-empty ASCII of at most 256 bytes, without CR or LF.
pub open spec fn frame_text_ok(line: Seq<char>) -> bool {
    &&& line.len() > 0
    &&& encode_utf8(line).len() <= MAX_READINESS_FRAME_BYTES
    &&& forall|i: int| 0 <= i < line.len() ==> (#[trigger] line[i] as u32) < 128 && line[i] != '\r' && line[i] != '\n'
}

/// What a readiness line announces: `1;NONCE;SEQUENCE;SHELL;DEPTH;LOCATION;CAPABILITY`.
pub open spec fn spec_parse_readiness(line: Seq<char>) -> Result<SpecReadinessFrame, ReadinessFrameErrorV1> {
    let f = split_fields(line);
    if !frame_text_ok(line) || f.len() != 7 || f[0] != "1"@ || !spec_valid_nonce(f[1]) || f[2].len() == 0 {
        Err(ReadinessFrameErrorV1::InvalidFrame)
    } else {
        match spec_parse_unsigned(f[2], u64::MAX as nat) {
            None => Err(ReadinessFrameErrorV1::InvalidSequence),
            Some(sequence) => if sequence == 0 {
                Err(ReadinessFrameErrorV1::InvalidSequence)
            } else if f[3] != "powershell"@ && f[3] != "cmd"@ {
                Err(ReadinessFrameErrorV1::InvalidShell)
            } else {
                match spec_parse_unsigned(f[4], u32::MAX as nat) {
                    None => Err(ReadinessFrameErrorV1::InvalidShellDepth),
                    Some(depth) => if depth > MAX_POWERSHELL_NESTED_DEPTH {
                        Err(ReadinessFrameErrorV1::ShellDepthTooDeep)
                    } else if f[5] != "filesystem"@ && f[5] != "non-filesystem"@ {
                        Err(ReadinessFrameErrorV1::InvalidLocation)
                    } else if f[6] != "psreadline-replace-v1"@ {
                        Err(ReadinessFrameErrorV1::InvalidCapability)
                    } else {
                        Ok(SpecReadinessFrame {
                            nonce: f[1],
                            sequence: sequence as u64,
                            shell: if f[3] == "powershell"@ { ActiveShell::WindowsPowerShell } else { ActiveShell::Cmd },
                            shell_depth: depth as u32,
                            location_kind: if f[5] == "filesystem"@ {
                                EditorLocationKindV1::FileSystem
                            } else {
                                EditorLocationKindV1::NonFileSystem
                            },
                            adapter_capability: EditorAdapterCapabilityV1::PsReadLineReplaceV1,
                        })
                    },
                }
            },
        }
    }
}

fn frame_text_check(line: &str) -> (r: bool)
    ensures
        r == frame_text_ok(line@),
{
    let chars = chars_of(line);
    if chars.len() == 0 || byte_len(line) > MAX_READINESS_FRAME_BYTES {
        return false;
    }
    let mut i: usize = 0;
    while i < chars.len()
        invariant
            i <= chars@.len(),
            chars@ == line@,
            forall|j: int| 0 <= j < i ==> (#[trigger] line@[j] as u32) < 128 && line@[j] != '\r' && line@[j] != '\n',
        decreases chars.len() - i,
    {
        let c = chars[i];
        if !((c as u32) < 128 && c != '\r' && c != '\n') {
            return false;
        }
        i += 1;
    }
    true
}

/// Parses the line a shell writes when its editor is ready for a prepared replacement.
pub fn parse_editor_readiness_frame(line: &str) -> (r: Result<EditorReadinessFrameV1, ReadinessFrameErrorV1>)
    ensures
        match spec_parse_readiness(line@) {
            Ok(f) => r is Ok && r.unwrap()@ == f,
            Err(e) => r == Err::<EditorReadinessFrameV1, _>(e),
        },
{
    let chars = chars_of(line);
    let fields = split_semicolons(chars.as_slice());
    let ghost fv = fields@.map_values(|v: Vec<char>| v@);
    if !frame_text_check(line) || fields.len() != 7 {
        return Err(ReadinessFrameErrorV1::InvalidFrame);
    }
    assert(fv[0] == fields@[0]@ && fv[1] == fields@[1]@ && fv[2] == fields@[2]@ && fv[3] == fields@[3]@);
    assert(fv[4] == fields@[4]@ && fv[5] == fields@[5]@ && fv[6] == fields@[6]@);
    let nonce = string_of(fields[1].as_slice());
    if !eq_str(fields[0].as_slice(), "1") || !is_valid_nonce(nonce.as_str()) || fields[2].len() == 0 {
        return Err(ReadinessFrameErrorV1::InvalidFrame);
    }
    let sequence = match parse_u64(fields[2].as_slice()) {
        None => {
            return Err(ReadinessFrameErrorV1::InvalidSequence);
        },
        Some(v) => v,
    };
    if sequence == 0 {
        return Err(ReadinessFrameErrorV1::InvalidSequence);
    }
    let shell = if eq_str(fields[3].as_slice(), "powershell") {
        ActiveShell::WindowsPowerShell
    } else if eq_str(fields[3].as_slice(), "cmd") {
        ActiveShell::Cmd
    } else {
        return Err(ReadinessFrameErrorV1::InvalidShell);
    };
    let depth = match parse_u64(fields[4].as_slice()) {
        None => {
            return Err(ReadinessFrameErrorV1::InvalidShellDepth);
        },
        Some(v) => v,
    };
    if depth > 0xffff_ffff {
        proof {
            let d = spec_parse_unsigned(fv[4], u32::MAX as nat);
            assert(d is None);
        }
        return Err(ReadinessFrameErrorV1::InvalidShellDepth);
    }
    if depth > MAX_POWERSHELL_NESTED_DEPTH as u64 {
        return Err(ReadinessFrameErrorV1::ShellDepthTooDeep);
    }
    let location_kind = if eq_str(fields[5].as_slice(), "filesystem") {
        EditorLocationKindV1::FileSystem
    } else if eq_str(fields[5].as_slice(), "non-filesystem") {
        EditorLocationKindV1::NonFileSystem
    } else {
        return Err(ReadinessFrameErrorV1::InvalidLocation);
    };
    if !eq_str(fields[6].as_slice(), "psreadline-replace-v1") {
        return Err(ReadinessFrameErrorV1::InvalidCapability);
    }
    Ok(EditorReadinessFrameV1 {
        nonce,
        sequence,
        shell,
        shell_depth: depth as u32,
        location_kind,
        adapter_capability: EditorAdapterCapabilityV1::PsReadLineReplaceV1,
    })
}

/// The access rules of the runner's named pipes for the logon session `logon_sid`: full
/// access for the system and for that session only, and none inherited.
pub fn pipe_dacl(logon_sid: &str) -> (r: String)
    ensures
        r@ == "D:P(A;;GA;;;SY)(A;;GA;;;"@ + logon_sid@ + ")"@,
{
    let head = crate::text::concat("D:P(A;;GA;;;SY)(A;;GA;;;", logon_sid);
    crate::text::concat(head.as_str(), ")")
}

} // verus!
