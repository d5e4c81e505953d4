//! The tools that a client can call: what they are asked, and what they reply.

use vstd::prelude::*;
use vstd::string::StringExecFns;
use vstd::utf8::{encode_utf8, is_ascii_chars, is_ascii_chars_encode_utf8};

use crate::error::{ErrorKind, ScanflowError};
use crate::memory::{all_valid, MemoryRange, ReadRequest};
use crate::number::{
    byte_hex, decimal, digit_of, hex, law_read_written, lemma_digit_char, lemma_digit_run,
    lemma_digits, lemma_unsigned_range, parse_unsigned, push_digits, to_hex, unsigned_of,
};
use crate::render::least;
use crate::session::{
    row_views, step_with_map, OffsetScan, OffsetStep, ReadBack, ReadBackState, SessionState,
    ValueScan, WriteJob,
};
use crate::session_mgr::{
    is_uuid, AnySession, AttachOutcome, AttachStep, ProcessInfo, SessionInfo, SessionManager,
};
use crate::sig_scan::{pattern_of, PatternScan, ScanState};
use crate::text::{
    is_space, law_hex_prefix, law_trimmed, lemma_views_push, opt_view, owned, remove_white_space,
    strip_0x, strip_hex_prefix, trim, trimmed, views, without_space,
};
use crate::types::{kind_of, value_bytes, FloatReading, ModuleInfo, OffsetMatch, ScanResult};
use crate::value_scanner::{sought, FilterScan, FilterState};

verus! {

/// What kind of error a tool reports.
#[derive(Clone, Copy, Debug, PartialEq, Eq, Structural)]
pub enum ErrorCode {
    /// The tool failed.
    InternalError,
    /// What the call names does not exist.
    ResourceNotFound,
    /// The arguments of the call are wrong.
    InvalidParams,
}

/// The error that a tool reports.
#[derive(Debug)]
pub struct ToolError {
    /// Its kind.
    pub code: ErrorCode,
    /// What went wrong.
    pub message: String,
}

/// Whether a result is an error of a kind with certain words.
pub open spec fn failed<T>(r: Result<T, ToolError>, code: ErrorCode, words: Seq<char>) -> bool {
    r matches Err(e) && e.code == code && e.message@ == words
}

/// Whether a result is the report of a refusal.
pub open spec fn reports<T>(r: Result<T, ToolError>, kind: ErrorKind) -> bool {
    failed(r, ErrorCode::InternalError, kind.words())
}

/// Whether a result is the refusal of what makes sense for a process only.
pub open spec fn needs_process<T>(r: Result<T, ToolError>) -> bool {
    failed(r, ErrorCode::InvalidParams, ErrorKind::InvalidArgument.words())
}

/// The words for a session that does not exist.
pub open spec fn not_found_words(id: Seq<char>) -> Seq<char> {
    "session `"@ + id + "` not found"@
}

/// The error that a tool reports where an operation failed.
pub fn mcp_err(e: ScanflowError) -> (r: ToolError)
    ensures
        r.code == ErrorCode::InternalError,
        r.message@ == e.words(),
{
    ToolError { code: ErrorCode::InternalError, message: e.message() }
}

/// Why bytes are not the hexadecimal digits of others.
#[derive(Clone, Copy, Debug, PartialEq, Eq, Structural)]
pub enum HexError {
    /// A byte is no hexadecimal digit.
    InvalidCharacter {
        /// The byte, as a character.
        c: char,
        /// Its position.
        index: usize,
    },
    /// Their number is odd.
    OddLength,
    /// Their number is not that of a fixed size.
    InvalidStringLength,
}

/// Whether a byte is a hexadecimal digit.
pub open spec fn is_hex_byte(b: u8) -> bool {
    digit_of(b as char, 16) is Some
}

/// The bytes that pairs of hexadecimal digits stand for.
pub open spec fn hex_pairs(b: Seq<u8>) -> Seq<u8> {
    Seq::new(
        b.len() / 2,
        |i: int|
            (16 * digit_of(b[2 * i] as char, 16).unwrap() + digit_of(
                b[2 * i + 1] as char,
                16,
            ).unwrap()) as u8,
    )
}

/// What bytes stand for as hexadecimal digits in pairs.
pub open spec fn hex_decoded(b: Seq<u8>, r: Result<Seq<u8>, HexError>) -> bool {
    match r {
        Ok(v) => {
            &&& b.len() % 2 == 0
            &&& forall|i: int| 0 <= i < b.len() ==> is_hex_byte(#[trigger] b[i])
            &&& v == hex_pairs(b)
        },
        Err(HexError::OddLength) => b.len() % 2 == 1,
        Err(HexError::InvalidCharacter { c, index }) => {
            &&& b.len() % 2 == 0
            &&& index < b.len()
            &&& !is_hex_byte(b[index as int])
            &&& c == b[index as int] as char
            &&& forall|i: int| 0 <= i < index ==> is_hex_byte(#[trigger] b[i])
        },
        Err(HexError::InvalidStringLength) => false,
    }
}

/// The contents of a result that may hold bytes.
pub open spec fn bytes_view(r: Result<Vec<u8>, HexError>) -> Result<Seq<u8>, HexError> {
    match r {
        Ok(v) => Ok(v@),
        Err(e) => Err(e),
    }
}

/// `hex::decode` reads hexadecimal digits of either case in pairs. It reports an odd number of
/// them, or else the first byte that is no digit, with its position.
#[verifier::external_body]
fn hex_decode(data: &[u8]) -> (r: Result<Vec<u8>, HexError>)
    ensures
        hex_decoded(data@, bytes_view(r)),
{
    hex::decode(data).map_err(|e| match e {
        hex::FromHexError::InvalidHexCharacter { c, index } => HexError::InvalidCharacter { c, index },
        hex::FromHexError::OddLength => HexError::OddLength,
        hex::FromHexError::InvalidStringLength => HexError::InvalidStringLength,
    })
}

/// A character in single quotes, with an escape where it needs one, as a `hex::FromHexError` shows
/// it.
pub uninterp spec fn quoted(c: char) -> Seq<char>;

/// The words of a `hex::FromHexError`.
pub open spec fn hex_error_words(e: HexError) -> Seq<char> {
    match e {
        HexError::InvalidCharacter { c, index } => "Invalid character "@ + quoted(c)
            + " at position "@ + decimal(index as nat),
        HexError::OddLength => "Odd number of digits"@,
        HexError::InvalidStringLength => "Invalid string length"@,
    }
}

/// The text of a `hex::FromHexError`, as its `to_string` gives it. A printable ASCII character is
/// quoted as it is, but for the quote and the backslash; what other characters are written as is
/// left to the name.
#[verifier::external_body]
fn hex_error_text(e: HexError) -> (r: String)
    ensures
        e is OddLength ==> r@ == "Odd number of digits"@,
        e is InvalidStringLength ==> r@ == "Invalid string length"@,
        e matches HexError::InvalidCharacter { c, index } ==> r@ == "Invalid character "@ + quoted(c)
            + " at position "@ + decimal(index as nat),
        e matches HexError::InvalidCharacter { c, index } ==> (' ' <= c <= '~' && c != '\'' && c
            != '\\' ==> r@ == "Invalid character "@ + seq!['\'', c, '\''] + " at position "@
            + decimal(index as nat)),
{
    match e {
        HexError::InvalidCharacter { c, index } => hex::FromHexError::InvalidHexCharacter { c, index },
        HexError::OddLength => hex::FromHexError::OddLength,
        HexError::InvalidStringLength => hex::FromHexError::InvalidStringLength,
    }.to_string()
}

/// The hexadecimal digits of bytes, two for each, in lower case.
pub open spec fn hex_text(data: Seq<u8>) -> Seq<char>
    decreases data.len(),
{
    if data.len() == 0 {
        Seq::empty()
    } else {
        hex_text(data.drop_last()) + byte_hex(data.last())
    }
}

/// `hex::encode` writes two lower-case hexadecimal digits for each byte.
#[verifier::external_body]
fn hex_encode(data: &[u8]) -> (r: String)
    ensures
        r@ == hex_text(data@),
{
    hex::encode(data)
}

/// Where the digits of bytes stand in their text.
proof fn lemma_hex_text(data: Seq<u8>)
    ensures
        hex_text(data).len() == 2 * data.len(),
        forall|i: int|
            0 <= i < data.len() ==> hex_text(data)[2 * i] == byte_hex(#[trigger] data[i])[0]
                && hex_text(data)[2 * i + 1] == byte_hex(data[i])[1],
    decreases data.len(),
{
    if data.len() > 0 {
        let rest = data.drop_last();
        lemma_hex_text(rest);
        assert forall|i: int| 0 <= i < data.len() implies hex_text(data)[2 * i] == byte_hex(
            #[trigger] data[i],
        )[0] && hex_text(data)[2 * i + 1] == byte_hex(data[i])[1] by {
            if i < rest.len() {
                assert(rest[i] == data[i]);
            }
        }
    }
}

/// Every character of the text of bytes is a digit in ASCII.
proof fn lemma_hex_text_is_ascii(data: Seq<u8>)
    ensures
        is_ascii_chars(hex_text(data)),
        forall|k: int|
            0 <= k < hex_text(data).len() ==> digit_of(#[trigger] hex_text(data)[k], 16) is Some,
    decreases data.len(),
{
    if data.len() > 0 {
        let b = data.last();
        lemma_hex_text_is_ascii(data.drop_last());
        lemma_digit_char((b / 16) as nat, 16);
        lemma_digit_char((b % 16) as nat, 16);
    }
}

/// The digits of a byte stand for it.
proof fn lemma_byte_hex(b: u8)
    ensures
        digit_of(byte_hex(b)[0], 16) == Some((b / 16) as nat),
        digit_of(byte_hex(b)[1], 16) == Some((b % 16) as nat),
{
    lemma_digit_char((b / 16) as nat, 16);
    lemma_digit_char((b % 16) as nat, 16);
}

/// Bytes that are written as hexadecimal text are read from it as they were.
pub proof fn law_hex_round_trip(data: Seq<u8>)
    ensures
        hex_decoded(encode_utf8(hex_text(data)), Ok(data)),
{
    let t = hex_text(data);
    let e = encode_utf8(t);
    lemma_hex_text(data);
    lemma_hex_text_is_ascii(data);
    is_ascii_chars_encode_utf8(t);
    assert forall|k: int| 0 <= k < e.len() implies is_hex_byte(#[trigger] e[k]) && e[k] as char
        == t[k] by {
        assert(t[k] as u8 == e[k]);
        assert('\0' <= t[k] <= '\u{7f}');
    }
    assert forall|i: int| 0 <= i < data.len() implies #[trigger] hex_pairs(e)[i] == data[i] by {
        let b = data[i];
        lemma_byte_hex(b);
        assert(e[2 * i] as char == t[2 * i]);
        assert(e[2 * i + 1] as char == t[2 * i + 1]);
        assert(16 * (b / 16) + b % 16 == b);
    }
    assert(hex_pairs(e) =~= data);
}

/// Parses an address: hexadecimal, with or without `0x` before it.
pub fn parse_addr(s: &str) -> (r: Result<u64, ToolError>)
    ensures
        ({
            let t = strip_0x(trimmed(s@));
            match unsigned_of(t, 16, u64::MAX as nat) {
                Ok(n) => r matches Ok(a) && a == n,
                Err(e) => failed(
                    r,
                    ErrorCode::InvalidParams,
                    "invalid address `"@ + t + "`: "@ + e.words(),
                ),
            }
        }),
{
    let all = trim(s);
    let bare = strip_hex_prefix(all.as_str());
    match parse_unsigned(bare.as_str(), 16, 0xFFFF_FFFF_FFFF_FFFF) {
        Ok(n) => {
            proof {
                lemma_unsigned_range(bare@, 16, u64::MAX as nat);
            }
            Ok(n as u64)
        },
        Err(e) => {
            let mut message = owned("invalid address `");
            message.append(bare.as_str());
            message.append("`: ");
            let why = e.message();
            message.append(why.as_str());
            Err(ToolError { code: ErrorCode::InvalidParams, message })
        },
    }
}

/// The digits that a text of hexadecimal bytes stands for: without white space, and without `0x`
/// before them.
pub open spec fn hex_digits_of(s: Seq<char>) -> Seq<u8> {
    encode_utf8(strip_0x(without_space(s)))
}

/// The bytes that a text stands for, or the words of the error.
pub open spec fn hex_bytes_of(s: Seq<char>, r: Result<Seq<u8>, Seq<char>>) -> bool {
    let b = hex_digits_of(s);
    match r {
        Ok(v) => hex_decoded(b, Ok(v)),
        Err(words) => if b.len() % 2 == 1 {
            words == "hex byte string has odd length"@
        } else {
            exists|e: HexError| #[trigger]
                hex_decoded(b, Err(e)) && words == "invalid hex bytes: "@ + hex_error_words(e)
        },
    }
}

/// Parses raw bytes: hexadecimal digits in pairs, with white space anywhere between them, and with
/// or without `0x` before them.
pub fn parse_hex_bytes(s: &str) -> (r: Result<Vec<u8>, ToolError>)
    ensures
        match r {
            Ok(v) => hex_bytes_of(s@, Ok(v@)),
            Err(e) => e.code == ErrorCode::InvalidParams && hex_bytes_of(s@, Err(e.message@)),
        },
{
    let cleaned = remove_white_space(s);
    let digits = strip_hex_prefix(cleaned.as_str());
    let bytes = digits.as_str().as_bytes();
    if bytes.len() % 2 != 0 {
        return Err(
            ToolError {
                code: ErrorCode::InvalidParams,
                message: owned("hex byte string has odd length"),
            },
        );
    }
    match hex_decode(bytes) {
        Ok(v) => Ok(v),
        Err(e) => {
            let mut message = owned("invalid hex bytes: ");
            let why = hex_error_text(e);
            message.append(why.as_str());
            assert(hex_decoded(hex_digits_of(s@), Err(e)));
            Err(ToolError { code: ErrorCode::InvalidParams, message })
        },
    }
}

/// A text of hexadecimal bytes is taken exactly where the number of its digits is even and all of
/// them are hexadecimal.
pub proof fn law_hex_bytes_taken(s: Seq<char>, r: Result<Seq<u8>, Seq<char>>)
    requires
        hex_bytes_of(s, r),
    ensures
        r is Ok <==> hex_digits_of(s).len() % 2 == 0 && forall|i: int|
            0 <= i < hex_digits_of(s).len() ==> is_hex_byte(#[trigger] hex_digits_of(s)[i]),
{
    let b = hex_digits_of(s);
    if r is Err && b.len() % 2 == 0 {
        let words = r->Err_0;
        let e = choose|e: HexError| #[trigger]
            hex_decoded(b, Err(e)) && words == "invalid hex bytes: "@ + hex_error_words(e);
        match e {
            HexError::InvalidCharacter { c, index } => {
                assert(!is_hex_byte(b[index as int]));
            },
            _ => {},
        }
    }
}

/// The error where there is no session with an id.
fn session_missing(id: &str) -> (r: ToolError)
    ensures
        r.code == ErrorCode::ResourceNotFound,
        r.message@ == not_found_words(id@),
{
    let mut message = owned("session `");
    message.append(id);
    message.append("` not found");
    ToolError { code: ErrorCode::ResourceNotFound, message }
}

/// How many matches a reply shows.
pub const MAX_SHOWN: usize = 64;

/// The arguments of attaching to a process.
#[derive(Debug)]
pub struct AttachProcessArgs {
    /// The connectors of the chain.
    pub connectors: Vec<String>,
    /// The operating systems of the chain.
    pub os: Vec<String>,
    /// The name of the process.
    pub program: Option<String>,
    /// The number of the process; it takes precedence over the name.
    pub pid: Option<u32>,
}

/// The arguments of attaching to a raw view.
#[derive(Debug)]
pub struct AttachViewArgs {
    /// The connectors of the chain.
    pub connectors: Vec<String>,
    /// The operating systems of the chain.
    pub os: Vec<String>,
}

/// The arguments of listing processes.
#[derive(Debug)]
pub struct ChainArgs {
    /// The connectors of the chain.
    pub connectors: Vec<String>,
    /// The operating systems of the chain.
    pub os: Vec<String>,
}

/// The arguments of a tool that needs a session only.
#[derive(Debug)]
pub struct SessionIdArg {
    /// The id of the session.
    pub session_id: String,
}

/// The arguments of a first pass.
#[derive(Debug)]
pub struct ScanValueArgs {
    /// The id of the session.
    pub session_id: String,
    /// The type.
    pub typename: String,
    /// The value.
    pub value: String,
}

/// The arguments of a filter pass.
#[derive(Debug)]
pub struct FilterValueArgs {
    /// The id of the session.
    pub session_id: String,
    /// The value.
    pub value: String,
}

/// The arguments of a signature scan.
#[derive(Debug)]
pub struct SigScanArgs {
    /// The id of the session.
    pub session_id: String,
    /// The signature.
    pub pattern: String,
}

/// The arguments of reading matches back.
#[derive(Debug)]
pub struct GetMatchesArgs {
    /// The id of the session.
    pub session_id: String,
    /// How many matches to read at most; 64 where it is missing.
    pub max: Option<usize>,
}

/// The arguments of reading raw bytes.
#[derive(Debug)]
pub struct ReadMemoryArgs {
    /// The id of the session.
    pub session_id: String,
    /// The address, in hexadecimal.
    pub addr: String,
    /// The number of bytes.
    pub len: usize,
}

/// The arguments of writing raw bytes.
#[derive(Debug)]
pub struct WriteMemoryArgs {
    /// The id of the session.
    pub session_id: String,
    /// The address, in hexadecimal.
    pub addr: String,
    /// The bytes, in hexadecimal.
    pub data: String,
}

/// The arguments of selecting a type.
#[derive(Debug)]
pub struct SetTypeArgs {
    /// The id of the session.
    pub session_id: String,
    /// The type.
    pub typename: String,
    /// The number of bytes, for types without a size of their own.
    pub len: Option<usize>,
}

/// The arguments of collecting global variables.
#[derive(Debug)]
pub struct CollectGlobalsArgs {
    /// The id of the session.
    pub session_id: String,
    /// The only module to look in, if any.
    pub module: Option<String>,
}

/// The arguments of a tool that needs a session and an address.
#[derive(Debug)]
pub struct AddrSessionArgs {
    /// The id of the session.
    pub session_id: String,
    /// The address, in hexadecimal.
    pub addr: String,
}

/// The arguments of a scan for chains of pointers.
#[derive(Debug)]
pub struct OffsetScanArgs {
    /// The id of the session.
    pub session_id: String,
    /// Whether chains begin at global variables only.
    pub use_disasm: bool,
    /// How far below a pointer's target the next address may lie.
    pub lrange: usize,
    /// How far above a pointer's target the next address may lie.
    pub urange: usize,
    /// How many pointers a chain may have.
    pub max_depth: usize,
    /// The address that chains have to begin at, in hexadecimal; none where it is empty.
    pub filter: Option<String>,
}

/// The reply of attaching to a process.
#[derive(Debug)]
pub struct AttachReply {
    /// The id of the new session.
    pub session_id: String,
    /// Always `process`.
    pub kind: String,
    /// The name that the process was asked for by, if any.
    pub program: Option<String>,
}

/// The reply of attaching to a raw view.
#[derive(Debug)]
pub struct AttachViewReply {
    /// The id of the new session.
    pub session_id: String,
    /// Always `view`.
    pub kind: String,
}

/// One of several processes with the same name, in words.
pub open spec fn candidate_words(p: ProcessInfo) -> Seq<char> {
    "pid="@ + decimal(p.pid as nat) + " name="@ + p.name@ + " state="@ + p.state@
}

/// Several processes with the same name, in words.
pub open spec fn candidates_words(list: Seq<ProcessInfo>) -> Seq<char>
    decreases list.len(),
{
    if list.len() == 0 {
        Seq::empty()
    } else if list.len() == 1 {
        candidate_words(list[0])
    } else {
        candidates_words(list.drop_last()) + "; "@ + candidate_words(list.last())
    }
}

/// The words for several processes with the same name.
pub open spec fn ambiguous_words(program: Seq<char>, list: Seq<ProcessInfo>) -> Seq<char> {
    decimal(list.len()) + " processes are named `"@ + program
        + "`; re-call attach_process with `pid` to pick one. Candidates: "@ + candidates_words(list)
}

/// Writes several processes in words.
fn push_candidates(out: &mut String, list: &Vec<ProcessInfo>)
    ensures
        final(out)@ == old(out)@ + candidates_words(list@),
{
    let ghost start = out@;
    assert(out@ =~= start + candidates_words(list@.take(0)));
    for i in 0..list.len()
        invariant
            out@ == start + candidates_words(list@.take(i as int)),
    {
        let ghost before = out@;
        if i > 0 {
            out.append("; ");
        }
        out.append("pid=");
        push_digits(out, list[i].pid as u128, 10);
        out.append(" name=");
        out.append(list[i].name.as_str());
        out.append(" state=");
        out.append(list[i].state.as_str());
        assert(list@.take(i + 1).drop_last() =~= list@.take(i as int));
        assert(list@.take(i + 1).last() == list@[i as int]);
        if i > 0 {
            assert(out@ =~= before + ("; "@ + candidate_words(list@[i as int])));
            assert(out@ =~= start + candidates_words(list@.take(i + 1)));
        } else {
            assert(out@ =~= before + candidate_words(list@[i as int]));
            assert(out@ =~= start + candidates_words(list@.take(i + 1)));
        }
    }
    assert(list@.take(list@.len() as int) =~= list@);
}

/// The reply to attaching to a process: the new session, or why there is none.
pub fn attach_process_reply(outcome: AttachOutcome, program: Option<String>) -> (r: Result<
    AttachReply,
    ToolError,
>)
    ensures
        match outcome {
            AttachOutcome::Session(id) => r matches Ok(reply) && reply.session_id == id
                && reply.kind@ == "process"@ && reply.program == program,
            AttachOutcome::Ambiguous { program, candidates } => failed(
                r,
                ErrorCode::InvalidParams,
                ambiguous_words(program@, candidates@),
            ),
            AttachOutcome::NotFound(name) => failed(
                r,
                ErrorCode::ResourceNotFound,
                "no process named `"@ + name@ + "` is running"@,
            ),
            AttachOutcome::NoTarget => failed(
                r,
                ErrorCode::InvalidParams,
                "attach_process requires `program` or `pid`"@,
            ),
        },
{
    match outcome {
        AttachOutcome::Session(session_id) => Ok(
            AttachReply { session_id, kind: owned("process"), program },
        ),
        AttachOutcome::Ambiguous { program, candidates } => {
            let mut message = String::new();
            push_digits(&mut message, candidates.len() as u128, 10);
            message.append(" processes are named `");
            message.append(program.as_str());
            message.append("`; re-call attach_process with `pid` to pick one. Candidates: ");
            push_candidates(&mut message, &candidates);
            assert(message@ =~= ambiguous_words(program@, candidates@));
            Err(ToolError { code: ErrorCode::InvalidParams, message })
        },
        AttachOutcome::NotFound(name) => {
            let mut message = owned("no process named `");
            message.append(name.as_str());
            message.append("` is running");
            Err(ToolError { code: ErrorCode::ResourceNotFound, message })
        },
        AttachOutcome::NoTarget => Err(
            ToolError {
                code: ErrorCode::InvalidParams,
                message: owned("attach_process requires `program` or `pid`"),
            },
        ),
    }
}

/// The reply to dropping a session.
#[derive(Debug)]
pub struct DetachReply {
    /// Whether there was one.
    pub detached: bool,
    /// The id.
    pub session_id: String,
}

/// The reply to a scan.
#[derive(Debug)]
pub struct ScanSummary {
    /// The number of matches.
    pub count: usize,
    /// Whether all memory was scanned.
    pub is_initial_scan: bool,
    /// The selected type, if any.
    pub typename: Option<String>,
    /// The first matches, in hexadecimal.
    pub first_matches: Vec<String>,
}

/// The first matches, in hexadecimal.
pub open spec fn first_addresses(matches: Seq<u64>) -> Seq<Seq<char>> {
    Seq::new(
        least(matches.len() as int, MAX_SHOWN as int) as nat,
        |i: int| hex(matches[i] as nat),
    )
}

/// Whether a reply is that to a scan of a session.
pub open spec fn summarizes(
    r: ScanSummary,
    matches: Seq<u64>,
    initial: bool,
    typename: Option<Seq<char>>,
) -> bool {
    &&& r.count == matches.len()
    &&& r.is_initial_scan == initial
    &&& opt_view(r.typename) == typename
    &&& views(r.first_matches@) == first_addresses(matches)
}

/// The reply to a scan of a session.
pub fn scan_summary<P, V>(res: &ScanResult, session: &AnySession<P, V>) -> (r: ScanSummary)
    ensures
        summarizes(r, res.matches@, res.is_initial_scan, session.state().typename),
{
    let n: usize = if res.matches.len() < MAX_SHOWN {
        res.matches.len()
    } else {
        MAX_SHOWN
    };
    let mut first: Vec<String> = Vec::new();
    for i in 0..n
        invariant
            n == least(res.matches@.len() as int, MAX_SHOWN as int),
            views(first@) == first_addresses(res.matches@).take(i as int),
    {
        let line = to_hex(res.matches[i]);
        proof {
            lemma_views_push(first@, line);
        }
        first.push(line);
        assert(views(first@) =~= first_addresses(res.matches@).take(i + 1));
    }
    assert(views(first@) =~= first_addresses(res.matches@));
    ScanSummary {
        count: res.count(),
        is_initial_scan: res.is_initial_scan,
        typename: session.typename(),
        first_matches: first,
    }
}

/// Ends a first pass that a client asked for.
pub fn scan_value_reply<P, V>(session: &mut AnySession<P, V>, scan: ValueScan) -> (r: ScanSummary)
    requires
        scan.wf(),
    ensures
        final(session).same_memory(old(session)),
        final(session).state() == (SessionState {
            matches: scan.state().found(),
            typename: Some(scan.name()),
            buf_len: scan.len(),
            ..old(session).state()
        }),
        summarizes(r, scan.state().found(), true, Some(scan.name())),
{
    let res = session.finish_scan_value(scan);
    scan_summary(&res, session)
}

/// Ends a filter pass that a client asked for.
pub fn filter_value_reply<P, V>(session: &mut AnySession<P, V>, scan: FilterScan) -> (r:
    ScanSummary)
    requires
        scan.wf(),
    ensures
        final(session).same_memory(old(session)),
        final(session).state() == (SessionState { matches: scan@.found(), ..old(session).state() }),
        summarizes(r, scan@.found(), false, old(session).state().typename),
{
    let res = session.finish_filter_value(scan);
    scan_summary(&res, session)
}

/// The reply to a signature scan.
#[derive(Debug)]
pub struct SigSummary {
    /// The number of matches.
    pub count: usize,
    /// Whether all memory was scanned, which it always is.
    pub is_initial_scan: bool,
    /// The first matches, in hexadecimal.
    pub first_matches: Vec<String>,
}

/// Ends a signature scan that a client asked for.
pub fn sig_scan_reply<P, V>(session: &mut AnySession<P, V>, scan: PatternScan) -> (r: SigSummary)
    requires
        scan.wf(),
    ensures
        final(session).same_memory(old(session)),
        final(session).state() == (SessionState {
            matches: scan@.found(),
            typename: None,
            ..old(session).state()
        }),
        r.count == scan@.found().len(),
        r.is_initial_scan,
        views(r.first_matches@) == first_addresses(scan@.found()),
{
    let res = session.finish_sig_scan(scan);
    let all = scan_summary(&res, session);
    SigSummary {
        count: all.count,
        is_initial_scan: all.is_initial_scan,
        first_matches: all.first_matches,
    }
}

/// A match with its value.
#[derive(Debug)]
pub struct MatchRow {
    /// The address, in hexadecimal.
    pub address: String,
    /// The value.
    pub value: String,
}

/// The reply to reading matches back.
#[derive(Debug)]
pub struct MatchesReply {
    /// The number of all matches.
    pub count: usize,
    /// The matches that were read.
    pub matches: Vec<MatchRow>,
}

/// The addresses and values in rows of a reply.
pub open spec fn match_rows(rows: Seq<MatchRow>) -> Seq<(Seq<char>, Seq<char>)> {
    Seq::new(rows.len(), |i: int| (rows[i].address@, rows[i].value@))
}

/// The addresses, in hexadecimal, and values of matches that were read back.
pub open spec fn shown_rows(rows: Seq<(u64, Seq<char>)>) -> Seq<(Seq<char>, Seq<char>)> {
    Seq::new(rows.len(), |i: int| (hex(rows[i].0 as nat), rows[i].1))
}

/// The reply to reading matches back.
pub fn get_matches_reply<P, V>(session: &AnySession<P, V>, back: ReadBack) -> (r: MatchesReply)
    ensures
        r.count == session.state().matches.len(),
        match_rows(r.matches@) == shown_rows(back@.rows),
{
    let rows = back.finish();
    let ghost vs = row_views(rows@);
    let mut out: Vec<MatchRow> = Vec::new();
    for i in 0..rows.len()
        invariant
            vs == row_views(rows@),
            match_rows(out@) == shown_rows(vs).take(i as int),
    {
        let ghost before = out@;
        let row = MatchRow {
            address: to_hex(rows[i].address),
            value: owned(rows[i].value.as_str()),
        };
        out.push(row);
        assert(match_rows(out@) =~= match_rows(before).push((row.address@, row.value@)));
        assert(match_rows(out@) =~= shown_rows(vs).take(i + 1));
    }
    assert(match_rows(out@) =~= shown_rows(vs));
    MatchesReply { count: session.match_count(), matches: out }
}

/// What is wrong with the address of a call, if anything.
pub open spec fn addr_error(s: Seq<char>) -> Option<Seq<char>> {
    let t = strip_0x(trimmed(s));
    match unsigned_of(t, 16, u64::MAX as nat) {
        Ok(_) => None,
        Err(e) => Some("invalid address `"@ + t + "`: "@ + e.words()),
    }
}

/// The address of a call.
pub open spec fn addr_of(s: Seq<char>) -> u64 {
    unsigned_of(strip_0x(trimmed(s)), 16, u64::MAX as nat)->Ok_0 as u64
}

/// The reply to reading raw bytes.
#[derive(Debug)]
pub struct ReadReply {
    /// The address, in hexadecimal.
    pub address: String,
    /// The number of bytes.
    pub length: usize,
    /// The bytes, in hexadecimal.
    pub hex: String,
}

/// The reply to reading raw bytes: the bytes, or what the memory reports.
pub fn read_memory_reply(addr: u64, data: Result<Vec<u8>, String>) -> (r: Result<
    ReadReply,
    ToolError,
>)
    ensures
        match data {
            Ok(v) => r matches Ok(reply) && reply.address@ == hex(addr as nat) && reply.length
                == v@.len() && reply.hex@ == hex_text(v@),
            Err(text) => failed(r, ErrorCode::InternalError, text@),
        },
{
    match data {
        Ok(v) => Ok(
            ReadReply {
                address: to_hex(addr),
                length: v.len(),
                hex: hex_encode(v.as_slice()),
            },
        ),
        Err(text) => Err(mcp_err(ScanflowError::Memory(text))),
    }
}

/// The reply to writing raw bytes.
#[derive(Debug)]
pub struct WriteReply {
    /// The number of bytes.
    pub written: usize,
    /// The address, in hexadecimal.
    pub address: String,
}

/// The reply to writing raw bytes.
pub fn write_memory_reply(addr: u64, written: usize) -> (r: WriteReply)
    ensures
        r.written == written,
        r.address@ == hex(addr as nat),
{
    WriteReply { written, address: to_hex(addr) }
}

/// The reply to a reset.
#[derive(Debug)]
pub struct ResetReply {
    /// Always true.
    pub reset: bool,
    /// The id of the session.
    pub session_id: String,
}

/// The reply to selecting a type.
#[derive(Debug)]
pub struct SetTypeReply {
    /// The type.
    pub typename: String,
    /// The number of bytes that was given.
    pub len: Option<usize>,
}

/// The error that a tool reports where the session of its call is of the wrong kind.
fn wrong_params(e: ScanflowError) -> (r: ToolError)
    ensures
        r.code == ErrorCode::InvalidParams,
        r.message@ == e.words(),
{
    ToolError { code: ErrorCode::InvalidParams, message: e.message() }
}

/// A module in a reply.
#[derive(Debug)]
pub struct ModuleRow {
    /// Its name.
    pub name: String,
    /// Its first address, in hexadecimal.
    pub base: String,
    /// Its number of bytes.
    pub size: u64,
}

/// The reply to listing modules.
pub fn list_modules_reply(modules: Result<Vec<ModuleInfo>, String>) -> (r: Result<
    Vec<ModuleRow>,
    ToolError,
>)
    ensures
        match modules {
            Ok(v) => r matches Ok(rows) && rows@.len() == v@.len() && forall|i: int|
                0 <= i < v@.len() ==> (#[trigger] rows@[i]).name@ == v@[i].name@ && rows@[i].base@
                    == hex(v@[i].base as nat) && rows@[i].size == v@[i].size,
            Err(text) => failed(r, ErrorCode::InternalError, text@),
        },
{
    let modules = match modules {
        Ok(v) => v,
        Err(text) => return Err(mcp_err(ScanflowError::Memory(text))),
    };
    let mut rows: Vec<ModuleRow> = Vec::new();
    for i in 0..modules.len()
        invariant
            rows@.len() == i,
            forall|j: int|
                0 <= j < i ==> (#[trigger] rows@[j]).name@ == modules@[j].name@ && rows@[j].base@
                    == hex(modules@[j].base as nat) && rows@[j].size == modules@[j].size,
    {
        let m = &modules[i];
        rows.push(
            ModuleRow { name: owned(m.name.as_str()), base: to_hex(m.base), size: m.size },
        );
    }
    Ok(rows)
}

/// Keeping a session under the id that it has changes nothing.
proof fn lemma_insert_same<A>(m: Map<Seq<char>, A>, k: Seq<char>)
    ensures
        m.dom().contains(k) ==> m.insert(k, m[k]) == m,
{
    if m.dom().contains(k) {
        assert(m.insert(k, m[k]) =~= m);
    }
}

/// The reply to building the pointer map.
#[derive(Debug)]
pub struct PointerMapReply {
    /// Always `built`.
    pub pointer_map: String,
    /// The id of the session.
    pub session_id: String,
}

/// The reply to collecting global variables.
#[derive(Debug)]
pub struct GlobalsReply {
    /// How many were found.
    pub globals: usize,
    /// The id of the session.
    pub session_id: String,
}

/// The reply to a call for code signatures.
#[derive(Debug)]
pub struct SigmakerReply {
    /// The signatures.
    pub signatures: Vec<String>,
}

/// The reply to a call for code signatures: the signatures, or what the memory reports.
pub fn sigmaker_reply(found: Result<Vec<String>, String>) -> (r: Result<SigmakerReply, ToolError>)
    ensures
        match found {
            Ok(v) => r matches Ok(reply) && reply.signatures == v,
            Err(text) => failed(r, ErrorCode::InternalError, text@),
        },
{
    match found {
        Ok(signatures) => Ok(SigmakerReply { signatures }),
        Err(text) => Err(mcp_err(ScanflowError::Memory(text))),
    }
}

/// The text of the filter of a call, where there is one.
pub open spec fn filter_text(args: OffsetScanArgs) -> Option<Seq<char>> {
    match args.filter {
        Some(s) => if s@.len() > 0 {
            Some(s@)
        } else {
            None
        },
        None => None,
    }
}

/// A link of a chain in a reply.
#[derive(Debug)]
pub struct LinkRow {
    /// The address, in hexadecimal.
    pub addr: String,
    /// The offset.
    pub off: isize,
}

/// A chain of pointers in a reply.
#[derive(Debug)]
pub struct OffsetRow {
    /// The match that it leads to, in hexadecimal.
    pub target: String,
    /// Its links.
    pub chain: Vec<LinkRow>,
}

/// The reply to a scan for chains of pointers.
#[derive(Debug)]
pub struct OffsetReply {
    /// The number of chains.
    pub count: usize,
    /// The first chains.
    pub matches: Vec<OffsetRow>,
}

/// Whether the links of a reply are those of a chain.
pub open spec fn links_shown(rows: Seq<LinkRow>, chain: Seq<(u64, isize)>) -> bool {
    &&& rows.len() == chain.len()
    &&& forall|j: int|
        0 <= j < rows.len() ==> (#[trigger] rows[j]).addr@ == hex(chain[j].0 as nat) && rows[j].off
            == chain[j].1
}

/// The links of a chain.
fn link_rows(chain: &Vec<(u64, isize)>) -> (r: Vec<LinkRow>)
    ensures
        links_shown(r@, chain@),
{
    let mut rows: Vec<LinkRow> = Vec::new();
    for j in 0..chain.len()
        invariant
            links_shown(rows@, chain@.take(j as int)),
    {
        let (addr, off) = chain[j];
        rows.push(LinkRow { addr: to_hex(addr), off });
    }
    assert(chain@.take(chain@.len() as int) =~= chain@);
    rows
}

/// The reply to a scan for chains of pointers: how many there are, and the first of them.
pub fn offset_scan_reply(matches: &Vec<OffsetMatch>) -> (r: OffsetReply)
    ensures
        r.count == matches@.len(),
        r.matches@.len() == least(matches@.len() as int, MAX_SHOWN as int),
        forall|i: int|
            0 <= i < r.matches@.len() ==> (#[trigger] r.matches@[i]).target@ == hex(
                matches@[i].target as nat,
            ) && links_shown(r.matches@[i].chain@, matches@[i].chain@),
{
    let n: usize = if matches.len() < MAX_SHOWN {
        matches.len()
    } else {
        MAX_SHOWN
    };
    let mut rows: Vec<OffsetRow> = Vec::new();
    for i in 0..n
        invariant
            n <= matches@.len(),
            rows@.len() == i,
            forall|k: int|
                0 <= k < i ==> (#[trigger] rows@[k]).target@ == hex(matches@[k].target as nat)
                    && links_shown(rows@[k].chain@, matches@[k].chain@),
    {
        let target = to_hex(matches[i].target);
        let chain = link_rows(&matches[i].chain);
        rows.push(OffsetRow { target, chain });
    }
    OffsetReply { count: matches.len(), matches: rows }
}

/// The server: all sessions, and the tools that work on them.
pub struct ScanflowServer<P, V> {
    mgr: SessionManager<P, V>,
}

impl<P, V> ScanflowServer<P, V> {
    /// The sessions, by their ids.
    pub closed spec fn sessions(&self) -> Map<Seq<char>, AnySession<P, V>> {
        self.mgr.sessions()
    }

    /// Whether the sessions are kept in good order.
    pub closed spec fn wf(&self) -> bool {
        self.mgr.wf()
    }

    /// A server without sessions.
    pub fn new() -> (r: Self)
        ensures
            r.wf(),
            r.sessions() == Map::<Seq<char>, AnySession<P, V>>::empty(),
    {
        ScanflowServer { mgr: SessionManager::new() }
    }

    /// Decides how to find the process that a client wants to attach to.
    pub fn attach_process(&self, args: &AttachProcessArgs) -> (r: AttachStep)
        ensures
            match (args.pid, opt_view(args.program)) {
                (Some(n), _) => r == AttachStep::OpenPid(n),
                (None, Some(name)) => r matches AttachStep::ListProcesses(t) && t@ == name,
                (None, None) => r == AttachStep::Done(AttachOutcome::NoTarget),
            },
    {
        let program = match &args.program {
            Some(name) => Some(owned(name.as_str())),
            None => None,
        };
        self.mgr.attach_process(program, args.pid)
    }

    /// Keeps the session of a process that was opened.
    pub fn attach_opened(&mut self, memory: P, name: String) -> (r: AttachOutcome)
        requires
            old(self).wf(),
        ensures
            final(self).wf(),
            r matches AttachOutcome::Session(id) && {
                let kept = final(self).sessions()[id@];
                &&& is_uuid(id@)
                &&& final(self).sessions() == old(self).sessions().insert(id@, kept)
                &&& kept matches AnySession::Process(s) && s.memory() == memory && s.state()
                    == SessionState::fresh(name@)
            },
    {
        self.mgr.attach_opened(memory, name)
    }

    /// Keeps the session of a raw view.
    pub fn attach_view(&mut self, memory: V) -> (r: AttachViewReply)
        requires
            old(self).wf(),
        ensures
            final(self).wf(),
            r.kind@ == "view"@,
            is_uuid(r.session_id@),
            ({
                let kept = final(self).sessions()[r.session_id@];
                &&& final(self).sessions() == old(self).sessions().insert(r.session_id@, kept)
                &&& kept matches AnySession::View(s) && s.memory() == memory && s.state()
                    == SessionState::fresh("view"@)
            }),
    {
        let session_id = self.mgr.attach_view(memory);
        AttachViewReply { session_id, kind: owned("view") }
    }

    /// The session with an id, or the error where there is none.
    pub fn require_session(&self, id: &str) -> (r: Result<
        &AnySession<P, V>,
        ToolError,
    >)
        requires
            self.wf(),
        ensures
            if self.sessions().dom().contains(id@) {
                r matches Ok(s) && *s == self.sessions()[id@]
            } else {
                failed(r, ErrorCode::ResourceNotFound, not_found_words(id@))
            },
    {
        match self.mgr.get(id) {
            Some(s) => Ok(s),
            None => Err(session_missing(id)),
        }
    }

    /// The session with an id, to be changed, or the error where there is none.
    pub fn require_session_mut(&mut self, id: &str) -> (r: Result<
        &mut AnySession<P, V>,
        ToolError,
    >)
        requires
            old(self).wf(),
        ensures
            final(self).wf(),
            if old(self).sessions().dom().contains(id@) {
                &&& r matches Ok(s)
                &&& *s == old(self).sessions()[id@]
                &&& final(self).sessions() == old(self).sessions().insert(id@, *final(s))
            } else {
                &&& failed(r, ErrorCode::ResourceNotFound, not_found_words(id@))
                &&& final(self).sessions() == old(self).sessions()
            },
    {
        match self.mgr.get_mut(id) {
            Some(s) => Ok(s),
            None => Err(session_missing(id)),
        }
    }

    /// Drops a session.
    pub fn detach_session(&mut self, args: SessionIdArg) -> (r: DetachReply)
        requires
            old(self).wf(),
        ensures
            final(self).wf(),
            final(self).sessions() == old(self).sessions().remove(args.session_id@),
            r.detached == old(self).sessions().dom().contains(args.session_id@),
            r.session_id == args.session_id,
    {
        let detached: bool = self.mgr.detach(args.session_id.as_str());
        DetachReply { detached, session_id: args.session_id }
    }

    /// Lists all sessions.
    pub fn list_sessions(&self) -> (r: Vec<SessionInfo>)
        requires
            self.wf(),
        ensures
            forall|i: int|
                0 <= i < r@.len() ==> self.sessions().dom().contains((#[trigger] r@[i]).id@)
                    && r@[i].describes(self.sessions()[r@[i].id@]),
            forall|i: int, j: int|
                0 <= i < j < r@.len() ==> (#[trigger] r@[i]).id@ != (#[trigger] r@[j]).id@,
            forall|k: Seq<char>| #[trigger]
                self.sessions().dom().contains(k) ==> exists|i: int|
                    0 <= i < r@.len() && (#[trigger] r@[i]).id@ == k,
    {
        self.mgr.list()
    }

    /// Begins the first pass that a client asks for.
    pub fn scan_value(
        &self,
        args: &ScanValueArgs,
        reading: &FloatReading,
        ranges: Vec<MemoryRange>,
    ) -> (r: Result<ValueScan, ToolError>)
        requires
            self.wf(),
            all_valid(ranges@),
        ensures
            if !self.sessions().dom().contains(args.session_id@) {
                failed(r, ErrorCode::ResourceNotFound, not_found_words(args.session_id@))
            } else {
                match value_bytes(args.typename@, args.value@, *reading) {
                    Some(b) => {
                        &&& r matches Ok(scan)
                        &&& scan.wf()
                        &&& scan.state() == ScanState::begun(sought(b), ranges@)
                        &&& scan.name() == args.typename@
                        &&& scan.len() == (match kind_of(args.typename@).unwrap().size() {
                            Some(n) => n as nat,
                            None => b.len(),
                        })
                    },
                    None => reports(r, ErrorKind::InvalidArgument),
                }
            },
    {
        let session = match self.require_session(args.session_id.as_str()) {
            Ok(s) => s,
            Err(e) => return Err(e),
        };
        match session.scan_value(args.typename.as_str(), args.value.as_str(), reading, ranges) {
            Ok(scan) => Ok(scan),
            Err(e) => Err(mcp_err(e)),
        }
    }

    /// Begins the filter pass that a client asks for.
    pub fn filter_value(
        &self,
        args: &FilterValueArgs,
        reading: &FloatReading,
    ) -> (r: Result<FilterScan, ToolError>)
        requires
            self.wf(),
        ensures
            if !self.sessions().dom().contains(args.session_id@) {
                failed(r, ErrorCode::ResourceNotFound, not_found_words(args.session_id@))
            } else {
                let s = self.sessions()[args.session_id@].state();
                match s.typename {
                    None => reports(r, ErrorKind::Uninitialized),
                    Some(t) => match value_bytes(t, args.value@, *reading) {
                        None => reports(r, ErrorKind::InvalidArgument),
                        Some(b) => r matches Ok(scan) && scan.wf() && scan@ == (FilterState {
                            targets: s.matches,
                            data: b,
                            replies: Seq::empty(),
                        }),
                    },
                }
            },
    {
        let session = match self.require_session(args.session_id.as_str()) {
            Ok(s) => s,
            Err(e) => return Err(e),
        };
        match session.filter_value(args.value.as_str(), reading) {
            Ok(scan) => Ok(scan),
            Err(e) => Err(mcp_err(e)),
        }
    }

    /// Begins the signature scan that a client asks for.
    pub fn sig_scan(
        &self,
        args: &SigScanArgs,
        ranges: Vec<MemoryRange>,
    ) -> (r: Result<PatternScan, ToolError>)
        requires
            self.wf(),
            all_valid(ranges@),
        ensures
            if !self.sessions().dom().contains(args.session_id@) {
                failed(r, ErrorCode::ResourceNotFound, not_found_words(args.session_id@))
            } else {
                match pattern_of(args.pattern@) {
                    Some(pat) => r matches Ok(scan) && scan.wf() && scan@ == ScanState::begun(
                        pat,
                        ranges@,
                    ),
                    None => reports(r, ErrorKind::InvalidArgument),
                }
            },
    {
        let session = match self.require_session(args.session_id.as_str()) {
            Ok(s) => s,
            Err(e) => return Err(e),
        };
        match session.sig_scan(args.pattern.as_str(), ranges) {
            Ok(scan) => Ok(scan),
            Err(e) => Err(mcp_err(e)),
        }
    }

    /// Begins to read back the matches that a client asks for.
    pub fn get_matches(&self, args: &GetMatchesArgs) -> (r: Result<
        ReadBack,
        ToolError,
    >)
        requires
            self.wf(),
        ensures
            if !self.sessions().dom().contains(args.session_id@) {
                failed(r, ErrorCode::ResourceNotFound, not_found_words(args.session_id@))
            } else {
                let s = self.sessions()[args.session_id@].state();
                let max = match args.max {
                    Some(n) => n,
                    None => MAX_SHOWN,
                };
                match s.typename {
                    None => reports(r, ErrorKind::Uninitialized),
                    Some(typename) => r matches Ok(back) && back@ == (ReadBackState {
                        typename,
                        buf_len: s.buf_len,
                        targets: s.matches.take(least(max as int, s.matches.len() as int)),
                        rows: Seq::empty(),
                    }),
                }
            },
    {
        let max: usize = match args.max {
            Some(n) => n,
            None => MAX_SHOWN,
        };
        let session = match self.require_session(args.session_id.as_str()) {
            Ok(s) => s,
            Err(e) => return Err(e),
        };
        match session.read_matches(max) {
            Ok(back) => Ok(back),
            Err(e) => Err(mcp_err(e)),
        }
    }

    /// Begins to read the raw bytes that a client asks for. A wrong address is reported before a
    /// session that does not exist.
    pub fn read_memory(&self, args: &ReadMemoryArgs) -> (r: Result<
        ReadRequest,
        ToolError,
    >)
        requires
            self.wf(),
        ensures
            match addr_error(args.addr@) {
                Some(words) => failed(r, ErrorCode::InvalidParams, words),
                None => if !self.sessions().dom().contains(args.session_id@) {
                    failed(r, ErrorCode::ResourceNotFound, not_found_words(args.session_id@))
                } else {
                    r matches Ok(q) && q == (ReadRequest {
                        addr: addr_of(args.addr@),
                        len: args.len as u64,
                    })
                },
            },
    {
        let addr: u64 = match parse_addr(args.addr.as_str()) {
            Ok(a) => a,
            Err(e) => return Err(e),
        };
        match self.require_session(args.session_id.as_str()) {
            Ok(s) => Ok(s.read_memory(addr, args.len)),
            Err(e) => Err(e),
        }
    }

    /// Begins to write the raw bytes that a client gives. A wrong address is reported first, then
    /// wrong bytes, then a session that does not exist.
    pub fn write_memory(&self, args: &WriteMemoryArgs) -> (r: Result<
        WriteJob,
        ToolError,
    >)
        requires
            self.wf(),
        ensures
            match addr_error(args.addr@) {
                Some(words) => failed(r, ErrorCode::InvalidParams, words),
                None => match r {
                    Ok(job) => {
                        &&& hex_bytes_of(args.data@, Ok(job@.data))
                        &&& self.sessions().dom().contains(args.session_id@)
                        &&& job@.targets == seq![addr_of(args.addr@)]
                        &&& job@.written == 0
                    },
                    Err(e) => if e.code == ErrorCode::InvalidParams {
                        hex_bytes_of(args.data@, Err(e.message@))
                    } else {
                        &&& exists|v: Seq<u8>| hex_bytes_of(args.data@, Ok(v))
                        &&& !self.sessions().dom().contains(args.session_id@)
                        &&& failed(r, ErrorCode::ResourceNotFound, not_found_words(args.session_id@))
                    },
                },
            },
    {
        let addr: u64 = match parse_addr(args.addr.as_str()) {
            Ok(a) => a,
            Err(e) => return Err(e),
        };
        let data = match parse_hex_bytes(args.data.as_str()) {
            Ok(v) => v,
            Err(e) => return Err(e),
        };
        match self.require_session(args.session_id.as_str()) {
            Ok(s) => Ok(s.write_memory(addr, data)),
            Err(e) => {
                assert(hex_bytes_of(args.data@, Ok(data@)));
                Err(e)
            },
        }
    }

    /// Resets a session.
    pub fn reset_session(&mut self, args: SessionIdArg) -> (r: Result<
        ResetReply,
        ToolError,
    >)
        requires
            old(self).wf(),
        ensures
            final(self).wf(),
            if old(self).sessions().dom().contains(args.session_id@) {
                let before = old(self).sessions()[args.session_id@];
                let after = final(self).sessions()[args.session_id@];
                &&& r matches Ok(reply) && reply.reset && reply.session_id == args.session_id
                &&& final(self).sessions() == old(self).sessions().insert(args.session_id@, after)
                &&& after.same_memory(&before)
                &&& after.state() == SessionState::fresh(before.state().target)
            } else {
                &&& failed(r, ErrorCode::ResourceNotFound, not_found_words(args.session_id@))
                &&& final(self).sessions() == old(self).sessions()
            },
    {
        match self.require_session_mut(args.session_id.as_str()) {
            Ok(s) => {
                s.reset();
                Ok(ResetReply { reset: true, session_id: args.session_id })
            },
            Err(e) => Err(e),
        }
    }

    /// Selects a type.
    pub fn set_type(&mut self, args: SetTypeArgs) -> (r: Result<
        SetTypeReply,
        ToolError,
    >)
        requires
            old(self).wf(),
        ensures
            final(self).wf(),
            if old(self).sessions().dom().contains(args.session_id@) {
                let before = old(self).sessions()[args.session_id@];
                let after = final(self).sessions()[args.session_id@];
                &&& final(self).sessions() == old(self).sessions().insert(args.session_id@, after)
                &&& after.same_memory(&before)
                &&& after.state() == before.state().type_set(args.typename@, args.len)
                &&& if SessionState::can_set_type(args.typename@, args.len) {
                    r matches Ok(reply) && reply.typename == args.typename && reply.len == args.len
                } else {
                    reports(r, ErrorKind::InvalidArgument)
                }
            } else {
                &&& failed(r, ErrorCode::ResourceNotFound, not_found_words(args.session_id@))
                &&& final(self).sessions() == old(self).sessions()
            },
    {
        match self.require_session_mut(args.session_id.as_str()) {
            Ok(s) => match s.set_type(args.typename.as_str(), args.len) {
                Ok(_) => Ok(SetTypeReply { typename: args.typename, len: args.len }),
                Err(e) => Err(mcp_err(e)),
            },
            Err(e) => Err(e),
        }
    }

    /// Checks that a session exists and that its target is a process.
    pub fn require_process(&self, id: &str) -> (r: Result<(), ToolError>)
        requires
            self.wf(),
        ensures
            if !self.sessions().dom().contains(id@) {
                failed(r, ErrorCode::ResourceNotFound, not_found_words(id@))
            } else if self.sessions()[id@] is View {
                needs_process(r)
            } else {
                r is Ok
            },
    {
        match self.require_session(id) {
            Ok(s) => match s.require_process() {
                Ok(_) => Ok(()),
                Err(e) => Err(wrong_params(e)),
            },
            Err(e) => Err(e),
        }
    }

    /// Takes the outcome of building the pointer map of a session.
    pub fn build_pointer_map(
        &mut self,
        args: SessionIdArg,
        built: Result<usize, String>,
    ) -> (r: Result<PointerMapReply, ToolError>)
        requires
            old(self).wf(),
        ensures
            final(self).wf(),
            if old(self).sessions().dom().contains(args.session_id@) {
                let before = old(self).sessions()[args.session_id@];
                let after = final(self).sessions()[args.session_id@];
                &&& final(self).sessions() == old(self).sessions().insert(args.session_id@, after)
                &&& after.same_memory(&before)
                &&& match (before, built) {
                    (AnySession::View(_), _) => {
                        &&& needs_process(r)
                        &&& after.state() == before.state()
                    },
                    (AnySession::Process(_), Ok(n)) => {
                        &&& r matches Ok(reply) && reply.pointer_map@ == "built"@ && reply.session_id
                            == args.session_id
                        &&& after.state() == (SessionState { pointers: n, ..before.state() })
                    },
                    (AnySession::Process(_), Err(text)) => {
                        &&& failed(r, ErrorCode::InternalError, text@)
                        &&& after.state() == before.state()
                    },
                }
            } else {
                &&& failed(r, ErrorCode::ResourceNotFound, not_found_words(args.session_id@))
                &&& final(self).sessions() == old(self).sessions()
            },
    {
        if let Err(e) = self.require_process(args.session_id.as_str()) {
            proof {
                lemma_insert_same(self.sessions(), args.session_id@);
            }
            return Err(e);
        }
        match self.require_session_mut(args.session_id.as_str()) {
            Ok(s) => match s.build_pointer_map(built) {
                Ok(_) => Ok(
                    PointerMapReply { pointer_map: owned("built"), session_id: args.session_id },
                ),
                Err(e) => Err(mcp_err(e)),
            },
            Err(e) => Err(e),
        }
    }

    /// Takes the outcome of collecting global variables for a session.
    pub fn collect_globals(
        &mut self,
        args: CollectGlobalsArgs,
        found: Result<usize, String>,
    ) -> (r: Result<GlobalsReply, ToolError>)
        requires
            old(self).wf(),
        ensures
            final(self).wf(),
            if old(self).sessions().dom().contains(args.session_id@) {
                let before = old(self).sessions()[args.session_id@];
                let after = final(self).sessions()[args.session_id@];
                &&& final(self).sessions() == old(self).sessions().insert(args.session_id@, after)
                &&& after.same_memory(&before)
                &&& match (before, found) {
                    (AnySession::View(_), _) => {
                        &&& needs_process(r)
                        &&& after.state() == before.state()
                    },
                    (AnySession::Process(_), Ok(n)) => {
                        &&& r matches Ok(reply) && reply.globals == n && reply.session_id
                            == args.session_id
                        &&& after.state() == (SessionState { globals: n, ..before.state() })
                    },
                    (AnySession::Process(_), Err(text)) => {
                        &&& failed(r, ErrorCode::InternalError, text@)
                        &&& after.state() == (SessionState { globals: 0, ..before.state() })
                    },
                }
            } else {
                &&& failed(r, ErrorCode::ResourceNotFound, not_found_words(args.session_id@))
                &&& final(self).sessions() == old(self).sessions()
            },
    {
        if let Err(e) = self.require_process(args.session_id.as_str()) {
            proof {
                lemma_insert_same(self.sessions(), args.session_id@);
            }
            return Err(e);
        }
        match self.require_session_mut(args.session_id.as_str()) {
            Ok(s) => match s.collect_globals(found) {
                Ok(globals) => Ok(GlobalsReply { globals, session_id: args.session_id }),
                Err(e) => Err(mcp_err(e)),
            },
            Err(e) => Err(e),
        }
    }

    /// Checks a call for code signatures, and gives the address to look for. A wrong address is
    /// reported before a session that does not exist or is none of a process.
    pub fn sigmaker(&self, args: &AddrSessionArgs) -> (r: Result<
        u64,
        ToolError,
    >)
        requires
            self.wf(),
        ensures
            match addr_error(args.addr@) {
                Some(words) => failed(r, ErrorCode::InvalidParams, words),
                None => if !self.sessions().dom().contains(args.session_id@) {
                    failed(r, ErrorCode::ResourceNotFound, not_found_words(args.session_id@))
                } else if self.sessions()[args.session_id@] is View {
                    needs_process(r)
                } else {
                    r matches Ok(a) && a == addr_of(args.addr@)
                },
            },
    {
        let addr: u64 = match parse_addr(args.addr.as_str()) {
            Ok(a) => a,
            Err(e) => return Err(e),
        };
        match self.require_process(args.session_id.as_str()) {
            Ok(_) => Ok(addr),
            Err(e) => Err(e),
        }
    }

    /// Begins the scan for chains of pointers that a client asks for. A wrong filter is reported
    /// before a session that does not exist or is none of a process.
    pub fn offset_scan(&self, args: &OffsetScanArgs) -> (r: Result<
        OffsetScan,
        ToolError,
    >)
        requires
            self.wf(),
        ensures
            ({
                let wrong = match filter_text(*args) {
                    Some(s) => addr_error(s),
                    None => None,
                };
                match wrong {
                    Some(words) => failed(r, ErrorCode::InvalidParams, words),
                    None => if !self.sessions().dom().contains(args.session_id@) {
                        failed(r, ErrorCode::ResourceNotFound, not_found_words(args.session_id@))
                    } else if self.sessions()[args.session_id@] is View {
                        needs_process(r)
                    } else {
                        let s = self.sessions()[args.session_id@].state();
                        r == Ok::<OffsetScan, ToolError>(
                            OffsetScan {
                                use_disasm: args.use_disasm,
                                lrange: args.lrange,
                                urange: args.urange,
                                max_depth: args.max_depth,
                                filter: match filter_text(*args) {
                                    Some(t) => Some(addr_of(t)),
                                    None => None,
                                },
                                step: if s.pointers == 0 {
                                    OffsetStep::BuildPointerMap
                                } else {
                                    step_with_map(args.use_disasm, s.globals)
                                },
                            },
                        )
                    },
                }
            }),
    {
        let mut filter: Option<u64> = None;
        if let Some(s) = &args.filter {
            if s.as_str().unicode_len() > 0 {
                match parse_addr(s.as_str()) {
                    Ok(a) => {
                        filter = Some(a);
                    },
                    Err(e) => return Err(e),
                }
            }
        }
        let session = match self.require_session(args.session_id.as_str()) {
            Ok(s) => s,
            Err(e) => return Err(e),
        };
        match session.offset_scan(args.use_disasm, args.lrange, args.urange, args.max_depth, filter) {
            Ok(scan) => Ok(scan),
            Err(e) => Err(wrong_params(e)),
        }
    }
}

/// The first 64 matches of a reply, or all where there are fewer, are in their order and in
/// hexadecimal. A reply counts all matches.
pub proof fn law_summaries(
    r: ScanSummary,
    matches: Seq<u64>,
    initial: bool,
    typename: Option<Seq<char>>,
    i: int,
)
    ensures
        first_addresses(matches).len() == (if matches.len() > 64 {
            64
        } else {
            matches.len()
        }),
        0 <= i < matches.len() && i < 64 ==> first_addresses(matches)[i] == hex(matches[i] as nat),
        summarizes(r, matches, initial, typename) <==> {
            &&& r.count == matches.len()
            &&& r.is_initial_scan == initial
            &&& opt_view(r.typename) == typename
            &&& views(r.first_matches@) == first_addresses(matches)
        },
{
}

/// Rows of a reply hold the addresses in hexadecimal and the values that were read back, at their
/// positions.
pub proof fn law_rows_shown(
    rows: Seq<MatchRow>,
    read: Seq<(u64, Seq<char>)>,
    links: Seq<LinkRow>,
    chain: Seq<(u64, isize)>,
    i: int,
)
    ensures
        match_rows(rows).len() == rows.len(),
        0 <= i < rows.len() ==> match_rows(rows)[i] == (rows[i].address@, rows[i].value@),
        shown_rows(read).len() == read.len(),
        0 <= i < read.len() ==> shown_rows(read)[i] == (hex(read[i].0 as nat), read[i].1),
        links_shown(links, chain) && 0 <= i < chain.len() ==> links.len() == chain.len()
            && links[i].addr@ == hex(chain[i].0 as nat) && links[i].off == chain[i].1,
        links_shown(links, chain) ==> links.len() == chain.len(),
{
}

/// An error of a tool has the code and the words that are stated of it.
pub proof fn law_tool_errors<T>(
    r: Result<T, ToolError>,
    code: ErrorCode,
    words: Seq<char>,
    kind: ErrorKind,
    id: Seq<char>,
)
    ensures
        failed(r, code, words) <==> (r matches Err(e) && e.code == code && e.message@ == words),
        reports(r, kind) <==> (r matches Err(e) && e.code == ErrorCode::InternalError && e.message@
            == kind.words()),
        needs_process(r) <==> (r matches Err(e) && e.code == ErrorCode::InvalidParams
            && e.message@ == ErrorKind::InvalidArgument.words()),
        not_found_words(id) == "session `"@ + id + "` not found"@,
{
}

/// Every address reads back from its hexadecimal digits, with and without `0x` before them and with
/// space around them. What is no number is reported with its text.
pub proof fn law_addr_reads_back(a: u64, s: Seq<char>)
    ensures
        addr_error(hex(a as nat)) is None && addr_of(hex(a as nat)) == a,
        addr_error(seq!['0', 'x'] + hex(a as nat)) is None && addr_of(
            seq!['0', 'x'] + hex(a as nat),
        ) == a,
        addr_error(seq![' '] + s) == addr_error(s) && addr_of(seq![' '] + s) == addr_of(s),
        unsigned_of(strip_0x(trimmed(s)), 16, 0xFFFF_FFFF_FFFF_FFFF) matches Ok(n) ==> addr_error(
            s,
        ) is None && addr_of(s) == n,
        unsigned_of(strip_0x(trimmed(s)), 16, 0xFFFF_FFFF_FFFF_FFFF) matches Err(e) ==> addr_error(
            s,
        ) == Some("invalid address `"@ + strip_0x(trimmed(s)) + "`: "@ + e.words()),
{
    let t = hex(a as nat);
    let p = seq!['0', 'x'] + t;
    lemma_digits(a as nat, 16);
    lemma_digit_run(t, 16);
    assert(digit_of(t[0], 16) is Some);
    assert(digit_of(t[t.len() - 1], 16) is Some);
    law_trimmed(t, ' ');
    assert(p.last() == t.last());
    law_trimmed(p, ' ');
    law_trimmed(s, ' ');
    law_hex_prefix(t);
    if t.len() >= 2 {
        assert(digit_of(t[1], 16) is Some);
    }
    law_read_written(a as nat, 16, u64::MAX as nat);
    lemma_unsigned_range(strip_0x(trimmed(s)), 16, u64::MAX as nat);
}

/// Raw bytes are read from pairs of hexadecimal digits, each pair the byte that it writes, whatever
/// white space stands among them and whether `0x` stands before them or not.
pub proof fn law_hex_bytes_are_pairs(s: Seq<char>, v: Seq<u8>, i: int)
    requires
        hex_bytes_of(s, Ok(v)),
    ensures
        ({
            let b = encode_utf8(strip_0x(without_space(s)));
            &&& b.len() == 2 * v.len()
            &&& 0 <= i < v.len() ==> {
                &&& digit_of(b[2 * i] as char, 16) == Some((v[i] / 16) as nat)
                &&& digit_of(b[2 * i + 1] as char, 16) == Some((v[i] % 16) as nat)
            }
        }),
{
    let b = hex_digits_of(s);
    if 0 <= i < v.len() {
        assert(is_hex_byte(b[2 * i]));
        assert(is_hex_byte(b[2 * i + 1]));
    }
}

/// Raw bytes are written as two hexadecimal digits each, in their order.
pub proof fn law_hex_text(data: Seq<u8>, b: u8)
    ensures
        hex_text(Seq::empty()) == Seq::<char>::empty(),
        hex_text(data.push(b)) == hex_text(data) + byte_hex(b),
{
    assert(data.push(b).drop_last() =~= data);
}

/// Several processes with one name are named one behind the other, each with number, name and
/// state, and all of them are counted.
pub proof fn law_candidates(program: Seq<char>, list: Seq<ProcessInfo>, p: ProcessInfo)
    ensures
        candidates_words(seq![p]) == "pid="@ + decimal(p.pid as nat) + " name="@ + p.name@
            + " state="@ + p.state@,
        list.len() > 0 ==> candidates_words(list.push(p)) == candidates_words(list) + "; "@ + (
        "pid="@ + decimal(p.pid as nat) + " name="@ + p.name@ + " state="@ + p.state@),
        ambiguous_words(program, list) == decimal(list.len()) + " processes are named `"@ + program
            + "`; re-call attach_process with `pid` to pick one. Candidates: "@ + candidates_words(
            list,
        ),
{
    assert(list.push(p).drop_last() =~= list);
}

/// A filter of an offset scan counts where it is not empty.
pub proof fn law_filter_text(args: OffsetScanArgs)
    ensures
        args.filter is None ==> filter_text(args) is None,
        args.filter matches Some(s) ==> filter_text(args) == (if s@.len() == 0 {
            None
        } else {
            Some(s@)
        }),
{
}

/// Every text of raw bytes has one reading. An odd number of digits is refused as that; otherwise
/// the first character that is no hexadecimal digit is named, with its position; and where there is
/// none, the text is taken.
pub proof fn law_hex_bytes_refused(s: Seq<char>, r: Result<Seq<u8>, Seq<char>>, i: usize)
    requires
        hex_bytes_of(s, r),
    ensures
        ({
            let b = encode_utf8(strip_0x(without_space(s)));
            &&& b.len() % 2 == 1 ==> r == Err::<Seq<u8>, Seq<char>>(
                "hex byte string has odd length"@,
            )
            &&& b.len() % 2 == 0 && i < b.len() && digit_of(b[i as int] as char, 16) is None && (
            forall|j: int| 0 <= j < i ==> digit_of(#[trigger] b[j] as char, 16) is Some) ==> r
                == Err::<Seq<u8>, Seq<char>>(
                "invalid hex bytes: "@ + ("Invalid character "@ + quoted(b[i as int] as char)
                    + " at position "@ + decimal(i as nat)),
            )
            &&& b.len() % 2 == 0 && (forall|j: int|
                0 <= j < b.len() ==> digit_of(#[trigger] b[j] as char, 16) is Some) ==> r is Ok
        }),
{
    let b = hex_digits_of(s);
    law_hex_bytes_taken(s, r);
    if b.len() % 2 == 0 && i < b.len() && digit_of(b[i as int] as char, 16) is None && (forall|j: int|
        0 <= j < i ==> digit_of(#[trigger] b[j] as char, 16) is Some) {
        assert(!is_hex_byte(b[i as int]));
        let words = r->Err_0;
        let e = choose|e: HexError| #[trigger]
            hex_decoded(b, Err(e)) && words == "invalid hex bytes: "@ + hex_error_words(e);
        match e {
            HexError::InvalidCharacter { c, index } => {
                if index < i {
                    assert(digit_of(b[index as int] as char, 16) is Some);
                }
                if i < index {
                    assert(is_hex_byte(b[i as int]));
                }
            },
            _ => {},
        }
    }
    if b.len() % 2 == 0 && (forall|j: int|
        0 <= j < b.len() ==> digit_of(#[trigger] b[j] as char, 16) is Some) {
        assert forall|j: int| 0 <= j < b.len() implies is_hex_byte(#[trigger] b[j]) by {
            assert(digit_of(b[j] as char, 16) is Some);
        }
    }
}

/// Bytes that are written as text are read from it, and from it with `0x` before it, as those bytes
/// and as nothing else.
pub proof fn law_hex_text_reads_back(data: Seq<u8>, r: Result<Seq<u8>, Seq<char>>)
    ensures
        hex_bytes_of(hex_text(data), r) <==> r == Ok::<Seq<u8>, Seq<char>>(data),
        hex_bytes_of(seq!['0', 'x'] + hex_text(data), r) <==> r == Ok::<Seq<u8>, Seq<char>>(data),
{
    let t = hex_text(data);
    let p = seq!['0', 'x'] + t;
    lemma_hex_text_is_ascii(data);
    law_hex_round_trip(data);
    assert forall|i: int| 0 <= i < t.len() implies !is_space(#[trigger] t[i]) by {
        assert(digit_of(t[i], 16) is Some);
    }
    assert forall|i: int| 0 <= i < p.len() implies !is_space(#[trigger] p[i]) by {
        if i >= 2 {
            assert(p[i] == t[i - 2]);
        }
    }
    lemma_nothing_to_leave_out(t);
    lemma_nothing_to_leave_out(p);
    law_hex_prefix(t);
    if t.len() >= 2 {
        assert(digit_of(t[1], 16) is Some);
    }
    lemma_hex_bytes_of_digits(t, data, r);
    lemma_hex_bytes_of_digits(p, data, r);
}

/// Where the digits of a text stand for bytes, the text is read as those bytes and as nothing else.
proof fn lemma_hex_bytes_of_digits(s: Seq<char>, data: Seq<u8>, r: Result<Seq<u8>, Seq<char>>)
    requires
        hex_decoded(hex_digits_of(s), Ok(data)),
    ensures
        hex_bytes_of(s, r) <==> r == Ok::<Seq<u8>, Seq<char>>(data),
{
    if hex_bytes_of(s, r) {
        law_hex_bytes_taken(s, r);
    }
}

/// A text without white space stays as it is.
proof fn lemma_nothing_to_leave_out(s: Seq<char>)
    requires
        forall|i: int| 0 <= i < s.len() ==> !is_space(#[trigger] s[i]),
    ensures
        without_space(s) == s,
    decreases s.len(),
{
    if s.len() > 0 {
        assert(!is_space(s[s.len() - 1]));
        lemma_nothing_to_leave_out(s.drop_last());
        assert(s.drop_last().push(s.last()) =~= s);
    }
}

/// What a result holds, and how an error of hexadecimal digits is put into words.
pub proof fn law_hex_errors(v: Vec<u8>, e: HexError, c: char, index: usize)
    ensures
        bytes_view(Ok(v)) == Ok::<Seq<u8>, HexError>(v@),
        bytes_view(Err(e)) == Err::<Seq<u8>, HexError>(e),
        hex_error_words(HexError::InvalidCharacter { c, index }) == "Invalid character "@ + quoted(c)
            + " at position "@ + decimal(index as nat),
        hex_error_words(HexError::OddLength) == "Odd number of digits"@,
        hex_error_words(HexError::InvalidStringLength) == "Invalid string length"@,
{
}

} // verus!
