//! Checks on what the terminal frontend sends, and the lossy UTF-8 decoding of terminal output.

use vstd::prelude::*;
use vstd::utf8::{decode_utf8, valid_utf8};
use crate::interpreter::ActiveShell;
use crate::text::{byte_len, concat, eq_str, chars_of, owned};
use crate::text_stream::{is_valid_up_to, valid_up_to};

verus! {

pub const PERFORMANCE_SCROLLBACK_ROWS: u32 = 4000;
pub const MAX_CLIENT_SESSION_ID: u64 = 9007199254740991;
pub const MAX_TERMINAL_INPUT_BYTES: usize = 65536;
pub const MAX_NATIVE_PASTE_BYTES: usize = 1048576;
pub const MAX_PTY_COLS: u16 = 1000;
pub const MAX_PTY_ROWS: u16 = 500;

/// A performance probe is on only when its setting is exactly `1`.
pub fn performance_input_echo_probe_enabled(value: Option<&str>) -> (r: bool)
    ensures
        r == (value matches Some(v) && v@ == "1"@),
{
    match value {
        None => false,
        Some(v) => {
            let chars = chars_of(v);
            eq_str(chars.as_slice(), "1")
        },
    }
}

/// Terminal dimensions: columns in `1..=MAX_PTY_COLS`, rows in `1..=MAX_PTY_ROWS`.
pub fn validate_terminal_dimensions(cols: u16, rows: u16) -> (r: Result<(), String>)
    ensures
        r is Ok <==> (1 <= cols <= MAX_PTY_COLS && 1 <= rows <= MAX_PTY_ROWS),
        r matches Err(m) ==> m@ == "terminal dimensions are out of range"@,
{
    if !(1 <= cols && cols <= MAX_PTY_COLS) || !(1 <= rows && rows <= MAX_PTY_ROWS) {
        return Err(owned("terminal dimensions are out of range"));
    }
    Ok(())
}

/// Client session ids are positive integers that JavaScript represents exactly.
pub fn validate_client_session_id(client_session_id: u64) -> (r: Result<(), String>)
    ensures
        r is Ok <==> (1 <= client_session_id <= MAX_CLIENT_SESSION_ID),
        r matches Err(m) ==> m@ == "client session ID is out of range"@,
{
    if !(1 <= client_session_id && client_session_id <= MAX_CLIENT_SESSION_ID) {
        return Err(owned("client session ID is out of range"));
    }
    Ok(())
}

/// Whether `candidate` is a valid session generation later than `current`.
pub fn is_newer_session_generation(current: u64, candidate: u64) -> (r: bool)
    ensures
        r == (1 <= candidate <= MAX_CLIENT_SESSION_ID && candidate > current),
{
    1 <= candidate && candidate <= MAX_CLIENT_SESSION_ID && candidate > current
}

/// What reserving `client_session_id` makes of the session generation `generation`: the new
/// generation, or nothing when the request is refused.
pub open spec fn spec_reserve_generation(generation: u64, client_session_id: u64) -> Option<u64> {
    if 1 <= client_session_id <= MAX_CLIENT_SESSION_ID && client_session_id > generation {
        Some(client_session_id)
    } else {
        None
    }
}

/// Moves the session generation forward to `client_session_id`, which must be valid and newer.
pub fn reserve_session_generation(generation: &mut u64, client_session_id: u64) -> (r: Result<(), String>)
    ensures
        match spec_reserve_generation(*old(generation), client_session_id) {
            Some(g) => r is Ok && *final(generation) == g,
            None => r is Err && *final(generation) == *old(generation),
        },
        r is Ok <==> (1 <= client_session_id <= MAX_CLIENT_SESSION_ID && client_session_id > *old(generation)),
        r is Ok ==> *final(generation) == client_session_id,
        r is Err ==> *final(generation) == *old(generation),
        r matches Err(m) ==> m@ == (if 1 <= client_session_id <= MAX_CLIENT_SESSION_ID {
            "client session ID is stale"@
        } else {
            "client session ID is out of range"@
        }),
{
    validate_client_session_id(client_session_id)?;
    if !is_newer_session_generation(*generation, client_session_id) {
        return Err(owned("client session ID is stale"));
    }
    *generation = client_session_id;
    Ok(())
}

/// Data from the frontend must fit in `maximum_bytes` bytes of UTF-8.
pub fn validate_bridge_data(data: &str, maximum_bytes: usize, kind: &str) -> (r: Result<(), String>)
    ensures
        r is Ok <==> vstd::utf8::encode_utf8(data@).len() <= maximum_bytes,
        r matches Err(m) ==> m@ == kind@ + " exceeds the byte limit"@,
{
    if byte_len(data) > maximum_bytes {
        return Err(concat(kind, " exceeds the byte limit"));
    }
    Ok(())
}

/// A scrollback measurement counts exactly the configured rows above a non-empty viewport.
pub fn valid_scrollback_measurement(configured_scrollback_rows: u32, viewport_rows: u32, buffer_rows: u32) -> (r: bool)
    ensures
        r == (configured_scrollback_rows == PERFORMANCE_SCROLLBACK_ROWS && viewport_rows > 0
            && buffer_rows >= viewport_rows && buffer_rows - viewport_rows == configured_scrollback_rows),
{
    configured_scrollback_rows == PERFORMANCE_SCROLLBACK_ROWS && viewport_rows > 0
        && buffer_rows >= viewport_rows && buffer_rows - viewport_rows == configured_scrollback_rows
}

/// The shell a frontend asks for.
#[derive(Clone, Copy, Debug, Eq, PartialEq)]
pub enum ShellRequest {
    Powershell,
    Cmd,
}

impl ShellRequest {
    pub fn active_shell(self) -> (r: ActiveShell)
        ensures
            r == match self {
                ShellRequest::Powershell => ActiveShell::WindowsPowerShell,
                ShellRequest::Cmd => ActiveShell::Cmd,
            },
    {
        match self {
            ShellRequest::Powershell => ActiveShell::WindowsPowerShell,
            ShellRequest::Cmd => ActiveShell::Cmd,
        }
    }
}

/// What `error_len()` of the error of `std::str::from_utf8(bytes)` gives, for bytes that are not
/// valid UTF-8.
pub uninterp spec fn utf8_error_len(bytes: Seq<u8>) -> Option<usize>;

/// `std::str::from_utf8(bytes)`, its text made owned. For bytes that are not valid UTF-8 it gives
/// the error's `valid_up_to()`, which std documents as the length of the longest valid prefix,
/// and `error_len()`: `None` when the input ends inside a sequence, else the length, at least
/// one, of the invalid sequence that starts at `valid_up_to()`. Which length that is for a given
/// input is left to the name `utf8_error_len`.
#[verifier::external_body]
fn str_from_utf8(bytes: &[u8]) -> (r: Result<String, (usize, Option<usize>)>)
    ensures
        match r {
            Ok(s) => valid_utf8(bytes@) && s@ == decode_utf8(bytes@),
            Err((n, l)) => {
                &&& !valid_utf8(bytes@)
                &&& is_valid_up_to(bytes@, n as int)
                &&& l == utf8_error_len(bytes@)
                &&& (l matches Some(k) ==> 1 <= k && n + k <= bytes@.len())
            },
        },
{
    match std::str::from_utf8(bytes) {
        Ok(text) => Ok(text.to_string()),
        Err(e) => Err((e.valid_up_to(), e.error_len())),
    }
}

/// Lossy decoding of `p`: valid text as it is, each invalid sequence as U+FFFD; and the
/// incomplete sequence at the end, kept for the next bytes.
pub open spec fn lossy_from(p: Seq<u8>) -> (Seq<char>, Seq<u8>)
    decreases p.len(),
{
    if p.len() == 0 {
        (seq![], seq![])
    } else if valid_utf8(p) {
        (decode_utf8(p), seq![])
    } else {
        let n = valid_up_to(p);
        let prefix = decode_utf8(p.take(n));
        match utf8_error_len(p) {
            Some(k) => if 0 <= n && 1 <= k && n + k <= p.len() {
                let rest = lossy_from(p.skip(n + k));
                (prefix + seq!['\u{fffd}'] + rest.0, rest.1)
            } else {
                (prefix, p.skip(n))
            },
            None => (prefix, p.skip(n)),
        }
    }
}

/// A copy of `v[start..]`.
fn bytes_from(v: &Vec<u8>, start: usize) -> (r: Vec<u8>)
    requires
        start <= v@.len(),
    ensures
        r@ == v@.skip(start as int),
{
    let mut r: Vec<u8> = Vec::new();
    let mut i: usize = start;
    while i < v.len()
        invariant
            start <= i <= v@.len(),
            r@ == v@.subrange(start as int, i as int),
        decreases v.len() - i,
    {
        r.push(v[i]);
        i += 1;
        assert(r@ =~= v@.subrange(start as int, i as int));
    }
    assert(r@ =~= v@.skip(start as int));
    r
}

/// Decodes terminal output as it arrives: a character split across reads comes out whole,
/// and invalid bytes come out as U+FFFD.
pub struct Utf8StreamDecoder {
    pending: Vec<u8>,
}

impl View for Utf8StreamDecoder {
    type V = Seq<u8>;

    closed spec fn view(&self) -> Seq<u8> {
        self.pending@
    }
}

impl Utf8StreamDecoder {
    pub fn new() -> (r: Self)
        ensures
            r@ == Seq::<u8>::empty(),
    {
        let r = Utf8StreamDecoder { pending: Vec::new() };
        assert(r.pending@ =~= Seq::<u8>::empty());
        r
    }

    /// The text that `bytes`, after what was held back, completes.
    pub fn push(&mut self, bytes: &[u8]) -> (r: String)
        ensures
            (r@, final(self)@) == lossy_from(old(self)@ + bytes@),
    {
        let mut i: usize = 0;
        while i < bytes.len()
            invariant
                i <= bytes@.len(),
                self.pending@ == old(self)@ + bytes@.take(i as int),
            decreases bytes.len() - i,
        {
            self.pending.push(bytes[i]);
            i += 1;
            assert(self.pending@ =~= old(self)@ + bytes@.take(i as int));
        }
        assert(bytes@.take(i as int) =~= bytes@);
        let ghost whole = self.pending@;
        let mut output = String::new();
        let mut consumed: usize = 0;
        assert(whole.skip(0) =~= whole);
        assert(output@ + lossy_from(whole).0 =~= lossy_from(whole).0);
        while consumed < self.pending.len()
            invariant
                consumed <= self.pending@.len(),
                self.pending@ == whole,
                whole == old(self)@ + bytes@,
                lossy_from(whole).0 == output@ + lossy_from(whole.skip(consumed as int)).0,
                lossy_from(whole).1 == lossy_from(whole.skip(consumed as int)).1,
            decreases self.pending.len() - consumed,
        {
            let remaining = bytes_from(&self.pending, consumed);
            let ghost rem = remaining@;
            let decoded = str_from_utf8(remaining.as_slice());
            proof {
                if let Err((n, l)) = decoded {
                    crate::text_stream::lemma_valid_up_to_is(rem, n as int);
                }
            }
            let ghost before = output@;
            match lossy_step(remaining.as_slice(), decoded) {
                LossyStepV1::Decoded { text, used } => {
                    output.append(text.as_str());
                    proof {
                        if used == rem.len() {
                            assert(rem.skip(used as int) =~= seq![]);
                        }
                        assert(rem.skip(used as int) =~= whole.skip(consumed + used));
                    }
                    consumed = consumed + used;
                    assert(before + (text@ + lossy_from(whole.skip(consumed as int)).0) =~= output@ + lossy_from(whole.skip(consumed as int)).0);
                },
                LossyStepV1::Incomplete { text, used } => {
                    output.append(text.as_str());
                    consumed = consumed + used;
                    assert(rem.skip(used as int) =~= whole.skip(consumed as int));
                    let kept = bytes_from(&self.pending, consumed);
                    self.pending = kept;
                    return output;
                },
            }
        }
        assert(whole.skip(consumed as int) =~= seq![]);
        self.pending = Vec::new();
        assert(self.pending@ =~= seq![]);
        assert(output@ + seq![] =~= output@);
        output
    }

    /// Ends the stream: an incomplete sequence still held back becomes U+FFFD.
    pub fn finish(&mut self) -> (r: String)
        ensures
            r@ == (if old(self)@.len() == 0 { seq![] } else { seq!['\u{fffd}'] }),
            final(self)@ == Seq::<u8>::empty(),
    {
        if self.pending.len() == 0 {
            return String::new();
        }
        self.pending = Vec::new();
        assert(self.pending@ =~= Seq::<u8>::empty());
        let mut r = String::new();
        crate::text::push_char(&mut r, '\u{fffd}');
        r
    }
}

/// A copy of `v[..n]`.
fn prefix_bytes(v: &Vec<u8>, n: usize) -> (r: Vec<u8>)
    requires
        n <= v@.len(),
    ensures
        r@ == v@.take(n as int),
{
    let mut r: Vec<u8> = Vec::new();
    let mut i: usize = 0;
    while i < n
        invariant
            i <= n <= v@.len(),
            r@ == v@.take(i as int),
        decreases n - i,
    {
        r.push(v[i]);
        i += 1;
        assert(r@ =~= v@.take(i as int));
    }
    r
}


/// Session generations are positive integers that a script holds exactly, and they only
/// move forward: a reserved generation is later than the one before and within the limit,
/// and reserving it again, or any earlier generation, is refused.
pub proof fn law_generation_not_reused(generation: u64, client_session_id: u64, again: u64)
    requires
        spec_reserve_generation(generation, client_session_id) is Some,
        again <= client_session_id,
    ensures
        spec_reserve_generation(generation, client_session_id)->Some_0 > generation,
        1 <= spec_reserve_generation(generation, client_session_id)->Some_0 <= MAX_CLIENT_SESSION_ID,
        spec_reserve_generation(spec_reserve_generation(generation, client_session_id)->Some_0, again) is None,
{
}

/// What a lossy decoder does with the bytes `rest` after decoding them: the text they give
/// and how many bytes it used, or, when `rest` ends inside a sequence, the text before it and
/// how many bytes that used, the others waiting for more input.
pub enum LossyStepV1 {
    Decoded { text: String, used: usize },
    Incomplete { text: String, used: usize },
}

/// The step of a lossy decoder after `std::str::from_utf8(rest)` gave `decoded` (a valid
/// text, or the error's `valid_up_to` and `error_len`): valid bytes are the whole text; else
/// the valid prefix of `n` bytes is decoded, followed by U+FFFD for an invalid sequence of
/// `k` bytes, which are used up, or the rest waits when the input ends inside a sequence.
pub fn lossy_step(rest: &[u8], decoded: Result<String, (usize, Option<usize>)>) -> (r: LossyStepV1)
    requires
        match decoded {
            Ok(t) => valid_utf8(rest@) && t@ == decode_utf8(rest@),
            Err((n, l)) => {
                &&& is_valid_up_to(rest@, n as int)
                &&& (l matches Some(k) ==> 1 <= k && n + k <= rest@.len())
            },
        },
    ensures
        match decoded {
            Ok(t) => r matches LossyStepV1::Decoded { text, used } && text@ == t@ && used == rest@.len(),
            Err((n, Some(k))) => r matches LossyStepV1::Decoded { text, used }
                && text@ == decode_utf8(rest@.take(n as int)).push('\u{fffd}') && used == n + k,
            Err((n, None)) => r matches LossyStepV1::Incomplete { text, used }
                && text@ == decode_utf8(rest@.take(n as int)) && used == n,
        },
{
    let ghost given = decoded;
    match decoded {
        Ok(text) => LossyStepV1::Decoded { text, used: rest.len() },
        Err((n, l)) => {
            assert(given == Err::<String, (usize, Option<usize>)>((n, l)));
            let after_invalid: Option<usize> = match l {
                Some(k) => {
                    let total = rest.len();
                    assert(n + k <= total);
                    Some(n + k)
                },
                None => None,
            };
            let mut text = String::new();
            if n > 0 {
                let mut prefix: Vec<u8> = Vec::new();
                let mut i: usize = 0;
                while i < n
                    invariant
                        i <= n <= rest@.len(),
                        prefix@ == rest@.take(i as int),
                    decreases n - i,
                {
                    prefix.push(rest[i]);
                    i += 1;
                    assert(prefix@ =~= rest@.take(i as int));
                }
                match str_from_utf8(prefix.as_slice()) {
                    Ok(t) => {
                        text = t;
                    },
                    Err(_) => {
                        assert(false);
                    },
                }
            } else {
                assert(rest@.take(0) =~= seq![]);
                assert(decode_utf8(rest@.take(0)) =~= text@);
            }
            match after_invalid {
                Some(used) => {
                    crate::text::push_char(&mut text, '\u{fffd}');
                    LossyStepV1::Decoded { text, used }
                },
                None => LossyStepV1::Incomplete { text, used: n },
            }
        },
    }
}

} // verus!
