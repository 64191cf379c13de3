//! Command parsing: locating a command inside an inbound payload and
//! validating its fields.
//!
//! A command is the marker `measure:` followed by a sample count, one comma,
//! and an interval in milliseconds.  The marker may sit anywhere inside a
//! larger framing string; the command runs from the marker to the first
//! double quote after it (or the end of the payload).

use vstd::prelude::*;
use vstd::slice::slice_to_vec;
use crate::digits::{digits_value, valid_u32_digits, valid_u64_digits};
use crate::digits::{parse_u32, parse_u64};
use crate::record::COMMA;

verus! {

/// ASCII `'"'`, the framing delimiter that ends an embedded command.
pub const QUOTE: u8 = 34;

/// The length of the command marker, `measure:`.
pub const MARKER_LEN: usize = 8;

/// The command marker: the bytes of `measure:`.
pub open spec fn marker() -> Seq<u8> {
    seq![109u8, 101u8, 97u8, 115u8, 117u8, 114u8, 101u8, 58u8]
}

/// The marker occurs in `s` at position `i`.
pub open spec fn marker_at(s: Seq<u8>, i: int) -> bool {
    0 <= i && i + MARKER_LEN <= s.len() && s.subrange(i, i + MARKER_LEN) == marker()
}

/// The position of the first marker occurrence at or after `i`.
pub open spec fn first_marker_from(s: Seq<u8>, i: int) -> Option<int>
    decreases s.len() - i,
{
    if i < 0 || i + MARKER_LEN > s.len() {
        None
    } else if marker_at(s, i) {
        Some(i)
    } else {
        first_marker_from(s, i + 1)
    }
}

/// The position of the first occurrence of byte `b` at or after `i`.
pub open spec fn first_byte_from(s: Seq<u8>, i: int, b: u8) -> Option<int>
    decreases s.len() - i,
{
    if i < 0 || i >= s.len() {
        None
    } else if s[i] == b {
        Some(i)
    } else {
        first_byte_from(s, i + 1, b)
    }
}

/// The command embedded in a payload: from the first marker to the first
/// quote after it, or to the end of the payload if no quote follows.
/// Nothing, if the payload holds no marker.
pub open spec fn extract_spec(s: Seq<u8>) -> Option<Seq<u8>> {
    match first_marker_from(s, 0) {
        None => None,
        Some(i) => {
            let end = match first_byte_from(s, i, QUOTE) {
                None => s.len() as int,
                Some(j) => j,
            };
            Some(s.subrange(i, end))
        },
    }
}

/// A validated sampling request: how many samples to take and how long to
/// pause between consecutive samples.
#[derive(PartialEq, Eq, Structural, Debug, Clone, Copy)]
pub struct SampleRequest {
    pub count: u32,
    pub interval_ms: u64,
}

/// Why a payload failed to become a request, carrying the offending text:
/// the command did not have exactly two fields (or no marker was found),
/// the count field was not an integer a `u32` can hold, or the interval
/// field was not an integer a `u64` can hold.
#[derive(Debug, PartialEq, Eq)]
pub enum CommandError {
    MalformedShape(Vec<u8>),
    InvalidCount(Vec<u8>),
    InvalidInterval(Vec<u8>),
}

/// The mathematical form of a `CommandError`.
pub ghost enum CommandErrorModel {
    MalformedShape(Seq<u8>),
    InvalidCount(Seq<u8>),
    InvalidInterval(Seq<u8>),
}

impl View for CommandError {
    type V = CommandErrorModel;

    open spec fn view(&self) -> CommandErrorModel {
        match self {
            CommandError::MalformedShape(p) => CommandErrorModel::MalformedShape(p@),
            CommandError::InvalidCount(t) => CommandErrorModel::InvalidCount(t@),
            CommandError::InvalidInterval(t) => CommandErrorModel::InvalidInterval(t@),
        }
    }
}

/// What parsing an extracted command yields.  The command starts with the
/// marker; after it there must be exactly two comma-separated fields, a
/// count a `u32` can hold and an interval a `u64` can hold.
pub open spec fn parse_extracted_spec(cmd: Seq<u8>) -> Result<SampleRequest, CommandErrorModel>
    recommends
        marker_at(cmd, 0),
{
    match first_byte_from(cmd, 0, COMMA) {
        None => Err(CommandErrorModel::MalformedShape(cmd)),
        Some(c) => match first_byte_from(cmd, c + 1, COMMA) {
            Some(_) => Err(CommandErrorModel::MalformedShape(cmd)),
            None => {
                let count_field = cmd.subrange(MARKER_LEN as int, c);
                let interval_field = cmd.subrange(c + 1, cmd.len() as int);
                if !valid_u32_digits(count_field) {
                    Err(CommandErrorModel::InvalidCount(count_field))
                } else if !valid_u64_digits(interval_field) {
                    Err(CommandErrorModel::InvalidInterval(interval_field))
                } else {
                    Ok(
                        SampleRequest {
                            count: digits_value(count_field) as u32,
                            interval_ms: digits_value(interval_field) as u64,
                        },
                    )
                }
            },
        },
    }
}

/// What parsing a whole payload yields: the command is located first; a
/// payload without a marker is malformed.
pub open spec fn parse_spec(s: Seq<u8>) -> Result<SampleRequest, CommandErrorModel> {
    match extract_spec(s) {
        None => Err(CommandErrorModel::MalformedShape(s)),
        Some(cmd) => parse_extracted_spec(cmd),
    }
}

/// Where `first_byte_from` points, the byte stands, and none before it.
proof fn lemma_first_byte_from_some(s: Seq<u8>, i: int, b: u8, j: int)
    requires
        0 <= i <= s.len(),
        first_byte_from(s, i, b) == Some(j),
    ensures
        i <= j < s.len(),
        s[j] == b,
        forall|k: int| i <= k < j ==> s[k] != b,
    decreases s.len() - i,
{
    if i < s.len() && s[i] != b {
        lemma_first_byte_from_some(s, i + 1, b, j);
    }
}

/// Where `first_marker_from` points, the marker stands.
proof fn lemma_first_marker_from_some(s: Seq<u8>, i: int, j: int)
    requires
        0 <= i,
        first_marker_from(s, i) == Some(j),
    ensures
        i <= j,
        marker_at(s, j),
    decreases s.len() - i,
{
    if i + MARKER_LEN <= s.len() && !marker_at(s, i) {
        lemma_first_marker_from_some(s, i + 1, j);
    }
}

/// No marker byte is a comma or a quote.
proof fn lemma_marker_bytes()
    ensures
        forall|k: int| 0 <= k < MARKER_LEN ==> marker()[k] != COMMA,
        forall|k: int| 0 <= k < MARKER_LEN ==> marker()[k] != QUOTE,
{
    assert(marker()[0] == 109);
    assert(marker()[1] == 101);
    assert(marker()[2] == 97);
    assert(marker()[3] == 115);
    assert(marker()[4] == 117);
    assert(marker()[5] == 114);
    assert(marker()[6] == 101);
    assert(marker()[7] == 58);
}

/// An extracted command starts with the whole marker.
pub(crate) proof fn lemma_extracted_marker(s: Seq<u8>, cmd: Seq<u8>)
    requires
        extract_spec(s) == Some(cmd),
    ensures
        cmd.len() >= MARKER_LEN,
        marker_at(cmd, 0),
{
    let i = first_marker_from(s, 0)->Some_0;
    lemma_first_marker_from_some(s, 0, i);
    let end = match first_byte_from(s, i, QUOTE) {
        None => s.len() as int,
        Some(j) => j,
    };
    if first_byte_from(s, i, QUOTE) is Some {
        let j = first_byte_from(s, i, QUOTE)->Some_0;
        lemma_first_byte_from_some(s, i, QUOTE, j);
        if j < i + MARKER_LEN {
            lemma_marker_bytes();
            assert(s.subrange(i, i + MARKER_LEN)[j - i] == s[j]);
            assert(false);
        }
    }
    assert(cmd.subrange(0, MARKER_LEN as int) =~= s.subrange(i, i + MARKER_LEN));
}

/// The first comma of an extracted command comes after the marker.
proof fn lemma_first_comma_past_marker(cmd: Seq<u8>, c: int)
    requires
        marker_at(cmd, 0),
        first_byte_from(cmd, 0, COMMA) == Some(c),
    ensures
        MARKER_LEN <= c < cmd.len(),
        cmd[c] == COMMA,
    decreases cmd.len(),
{
    lemma_first_byte_from_some(cmd, 0, COMMA, c);
    if c < MARKER_LEN {
        lemma_marker_bytes();
        assert(cmd.subrange(0, MARKER_LEN as int)[c] == cmd[c]);
        assert(false);
    }
}

/// Compares the bytes at `i` against the marker.
fn marker_match_at(s: &[u8], i: usize) -> (r: bool)
    requires
        i + MARKER_LEN <= s@.len(),
    ensures
        r == marker_at(s@, i as int),
{
    let r = s[i] == 109 && s[i + 1] == 101 && s[i + 2] == 97 && s[i + 3] == 115 && s[i + 4]
        == 117 && s[i + 5] == 114 && s[i + 6] == 101 && s[i + 7] == 58;
    proof {
        let sub = s@.subrange(i as int, i as int + MARKER_LEN);
        lemma_marker_bytes();
        assert(marker()[0] == 109);
        assert(marker()[1] == 101);
        assert(marker()[2] == 97);
        assert(marker()[3] == 115);
        assert(marker()[4] == 117);
        assert(marker()[5] == 114);
        assert(marker()[6] == 101);
        assert(marker()[7] == 58);
        if r {
            assert(sub =~= marker());
        } else {
            if sub == marker() {
                assert(s@[i as int] == sub[0]);
                assert(s@[i as int + 1] == sub[1]);
                assert(s@[i as int + 2] == sub[2]);
                assert(s@[i as int + 3] == sub[3]);
                assert(s@[i as int + 4] == sub[4]);
                assert(s@[i as int + 5] == sub[5]);
                assert(s@[i as int + 6] == sub[6]);
                assert(s@[i as int + 7] == sub[7]);
            }
        }
    }
    r
}

/// Finds the first marker occurrence in the payload.
fn find_marker(s: &[u8]) -> (r: Option<usize>)
    ensures
        match r {
            Some(i) => first_marker_from(s@, 0) == Some(i as int) && marker_at(s@, i as int),
            None => first_marker_from(s@, 0) is None,
        },
{
    if s.len() < MARKER_LEN {
        return None;
    }
    let last = s.len() - MARKER_LEN;
    let mut i: usize = 0;
    while i <= last
        invariant
            s@.len() >= MARKER_LEN,
            last == s@.len() - MARKER_LEN,
            last <= usize::MAX - MARKER_LEN,
            0 <= i <= last + 1,
            first_marker_from(s@, 0) == first_marker_from(s@, i as int),
        decreases last + 1 - i,
    {
        if marker_match_at(s, i) {
            assert(first_marker_from(s@, i as int) == Some(i as int));
            return Some(i);
        }
        assert(first_marker_from(s@, i as int) == first_marker_from(s@, i as int + 1));
        i = i + 1;
    }
    assert(first_marker_from(s@, i as int) is None);
    None
}

/// Finds the first occurrence of byte `b` at or after `start`.
fn find_byte_from(s: &[u8], start: usize, b: u8) -> (r: Option<usize>)
    requires
        start <= s@.len(),
    ensures
        match r {
            Some(j) => first_byte_from(s@, start as int, b) == Some(j as int) && start <= j
                < s@.len(),
            None => first_byte_from(s@, start as int, b) is None,
        },
{
    let mut j: usize = start;
    while j < s.len()
        invariant
            start <= j <= s@.len(),
            first_byte_from(s@, start as int, b) == first_byte_from(s@, j as int, b),
        decreases s@.len() - j,
    {
        if s[j] == b {
            return Some(j);
        }
        assert(first_byte_from(s@, j as int, b) == first_byte_from(s@, j as int + 1, b));
        j = j + 1;
    }
    None
}

/// Copies `s[start..end]` into a fresh vector.
fn copy_range(s: &[u8], start: usize, end: usize) -> (r: Vec<u8>)
    requires
        start <= end <= s@.len(),
    ensures
        r@ == s@.subrange(start as int, end as int),
{
    let mut r: Vec<u8> = Vec::new();
    let mut j: usize = start;
    while j < end
        invariant
            start <= j <= end <= s@.len(),
            r@ == s@.subrange(start as int, j as int),
        decreases end - j,
    {
        r.push(s[j]);
        assert(r@ =~= s@.subrange(start as int, j as int + 1));
        j = j + 1;
    }
    r
}

/// Locates the command embedded in a payload: from the first marker to the
/// first quote after it (or the end).  Payloads without a marker are not
/// commands and yield nothing.
pub fn extract(payload: &[u8]) -> (r: Option<Vec<u8>>)
    ensures
        match r {
            Some(cmd) => extract_spec(payload@) == Some(cmd@),
            None => extract_spec(payload@) is None,
        },
{
    match find_marker(payload) {
        None => None,
        Some(i) => {
            let end = match find_byte_from(payload, i, QUOTE) {
                None => payload.len(),
                Some(j) => j,
            };
            Some(copy_range(payload, i, end))
        },
    }
}

/// Splits an extracted command into its two fields and validates them.
pub(crate) fn parse_fields(cmd: &Vec<u8>) -> (r: Result<SampleRequest, CommandError>)
    requires
        marker_at(cmd@, 0),
    ensures
        ({
            let sp = parse_extracted_spec(cmd@);
            match r {
                Ok(req) => sp == Ok::<SampleRequest, CommandErrorModel>(req),
                Err(e) => sp == Err::<SampleRequest, CommandErrorModel>(e@),
            }
        }),
{
    let n = cmd.len();
    match find_byte_from(cmd.as_slice(), 0, COMMA) {
        None => Err(CommandError::MalformedShape(slice_to_vec(cmd.as_slice()))),
        Some(c) => match find_byte_from(cmd.as_slice(), c + 1, COMMA) {
            Some(_) => Err(CommandError::MalformedShape(slice_to_vec(cmd.as_slice()))),
            None => {
                proof {
                    lemma_first_comma_past_marker(cmd@, c as int);
                }
                let count_field = copy_range(cmd.as_slice(), MARKER_LEN, c);
                let interval_field = copy_range(cmd.as_slice(), c + 1, n);
                match parse_u32(count_field.as_slice()) {
                    None => Err(CommandError::InvalidCount(count_field)),
                    Some(count) => match parse_u64(interval_field.as_slice()) {
                        None => Err(CommandError::InvalidInterval(interval_field)),
                        Some(interval_ms) => Ok(SampleRequest { count, interval_ms }),
                    },
                }
            },
        },
    }
}

/// Parses an inbound payload into a sampling request.
///
/// The payload parses exactly when it holds the marker, exactly one comma
/// follows it, and the two fields are integers in range; each failure is
/// classified and carries the offending text.
pub fn parse(payload: &[u8]) -> (r: Result<SampleRequest, CommandError>)
    ensures
        ({
            let sp = parse_spec(payload@);
            match r {
                Ok(req) => sp == Ok::<SampleRequest, CommandErrorModel>(req),
                Err(e) => sp == Err::<SampleRequest, CommandErrorModel>(e@),
            }
        }),
{
    match extract(payload) {
        None => Err(CommandError::MalformedShape(slice_to_vec(payload))),
        Some(cmd) => {
            proof {
                lemma_extracted_marker(payload@, cmd@);
            }
            parse_fields(&cmd)
        },
    }
}

/// The diagnostic prefix `Invalid command: `.
pub open spec fn invalid_command_prefix() -> Seq<u8> {
    seq![73u8, 110u8, 118u8, 97u8, 108u8, 105u8, 100u8, 32u8, 99u8, 111u8, 109u8, 109u8, 97u8,
        110u8, 100u8, 58u8, 32u8]
}

/// The diagnostic prefix `Invalid number of measurements: `.
pub open spec fn invalid_count_prefix() -> Seq<u8> {
    seq![73u8, 110u8, 118u8, 97u8, 108u8, 105u8, 100u8, 32u8, 110u8, 117u8, 109u8, 98u8, 101u8,
        114u8, 32u8, 111u8, 102u8, 32u8, 109u8, 101u8, 97u8, 115u8, 117u8, 114u8, 101u8, 109u8,
        101u8, 110u8, 116u8, 115u8, 58u8, 32u8]
}

/// The diagnostic prefix `Invalid interval: `.
pub open spec fn invalid_interval_prefix() -> Seq<u8> {
    seq![73u8, 110u8, 118u8, 97u8, 108u8, 105u8, 100u8, 32u8, 105u8, 110u8, 116u8, 101u8, 114u8,
        118u8, 97u8, 108u8, 58u8, 32u8]
}

/// The diagnostic record published for a failed command: a human-readable
/// prefix naming the failure, then the offending text.
pub open spec fn error_bytes(e: CommandErrorModel) -> Seq<u8> {
    match e {
        CommandErrorModel::MalformedShape(p) => invalid_command_prefix() + p,
        CommandErrorModel::InvalidCount(t) => invalid_count_prefix() + t,
        CommandErrorModel::InvalidInterval(t) => invalid_interval_prefix() + t,
    }
}

/// Appends every byte of `v`.
fn push_all(out: &mut Vec<u8>, v: &Vec<u8>)
    ensures
        final(out)@ == old(out)@ + v@,
{
    let mut j: usize = 0;
    while j < v.len()
        invariant
            0 <= j <= v@.len(),
            out@ == old(out)@ + v@.subrange(0, j as int),
        decreases v@.len() - j,
    {
        out.push(v[j]);
        assert(out@ =~= old(out)@ + v@.subrange(0, j as int + 1));
        j = j + 1;
    }
    assert(out@ =~= old(out)@ + v@);
}

/// Appends the bytes of `Invalid command: `.
fn push_invalid_command_prefix(out: &mut Vec<u8>)
    ensures
        final(out)@ == old(out)@ + invalid_command_prefix(),
{
    out.push(73);
    out.push(110);
    out.push(118);
    out.push(97);
    out.push(108);
    out.push(105);
    out.push(100);
    out.push(32);
    out.push(99);
    out.push(111);
    out.push(109);
    out.push(109);
    out.push(97);
    out.push(110);
    out.push(100);
    out.push(58);
    out.push(32);
    assert(out@ =~= old(out)@ + invalid_command_prefix());
}

/// Appends the bytes of `Invalid number of measurements: `.
fn push_invalid_count_prefix(out: &mut Vec<u8>)
    ensures
        final(out)@ == old(out)@ + invalid_count_prefix(),
{
    out.push(73);
    out.push(110);
    out.push(118);
    out.push(97);
    out.push(108);
    out.push(105);
    out.push(100);
    out.push(32);
    out.push(110);
    out.push(117);
    out.push(109);
    out.push(98);
    out.push(101);
    out.push(114);
    out.push(32);
    out.push(111);
    out.push(102);
    out.push(32);
    out.push(109);
    out.push(101);
    out.push(97);
    out.push(115);
    out.push(117);
    out.push(114);
    out.push(101);
    out.push(109);
    out.push(101);
    out.push(110);
    out.push(116);
    out.push(115);
    out.push(58);
    out.push(32);
    assert(out@ =~= old(out)@ + invalid_count_prefix());
}

/// Appends the bytes of `Invalid interval: `.
fn push_invalid_interval_prefix(out: &mut Vec<u8>)
    ensures
        final(out)@ == old(out)@ + invalid_interval_prefix(),
{
    out.push(73);
    out.push(110);
    out.push(118);
    out.push(97);
    out.push(108);
    out.push(105);
    out.push(100);
    out.push(32);
    out.push(105);
    out.push(110);
    out.push(116);
    out.push(101);
    out.push(114);
    out.push(118);
    out.push(97);
    out.push(108);
    out.push(58);
    out.push(32);
    assert(out@ =~= old(out)@ + invalid_interval_prefix());
}

/// Renders a parse failure as the diagnostic record published on the
/// response topic.
pub fn error_message(e: &CommandError) -> (out: Vec<u8>)
    ensures
        out@ == error_bytes(e@),
{
    let mut out: Vec<u8> = Vec::new();
    match e {
        CommandError::MalformedShape(p) => {
            push_invalid_command_prefix(&mut out);
            push_all(&mut out, p);
        },
        CommandError::InvalidCount(t) => {
            push_invalid_count_prefix(&mut out);
            push_all(&mut out, t);
        },
        CommandError::InvalidInterval(t) => {
            push_invalid_interval_prefix(&mut out);
            push_all(&mut out, t);
        },
    }
    out
}

} // verus!
