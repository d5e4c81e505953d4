//! The command line: the commands, addresses as arguments, and the log level.

use vstd::prelude::*;
use vstd::string::StringExecFns;

use crate::number::{
    digit_of, hex, law_read_written, lemma_digit_run, lemma_digits, lemma_unsigned_range,
    parse_unsigned, unsigned_of, IntError,
};
use crate::text::{law_hex_prefix, law_trimmed, owned, strip_0x, strip_hex_prefix, trim, trimmed};

verus! {

/// A command.
#[derive(Debug)]
pub enum Command {
    /// The interactive mode.
    Repl,
    /// A first pass for a value.
    Scan {
        /// The type.
        typename: String,
        /// The value.
        value: String,
    },
    /// A filter pass for a new value.
    Filter {
        /// The value.
        value: String,
    },
    /// A scan for a signature.
    Sig {
        /// The signature.
        pattern: String,
    },
    /// A hexdump of raw bytes.
    Read {
        /// The first address.
        addr: u64,
        /// The number of bytes.
        len: usize,
    },
    /// A write of a value to matches.
    Write {
        /// The position of the match.
        idx: Option<usize>,
        /// Whether to write to all matches.
        all: bool,
        /// The value.
        value: String,
    },
    /// The matches as values.
    Print,
    /// A new beginning.
    Reset,
    /// The modules of the process.
    Modules,
    /// The pointer map.
    PointerMap,
    /// Global variables.
    Globals {
        /// The only module to look in, if any.
        module: Option<String>,
    },
    /// Code signatures for a global variable.
    Sigmaker {
        /// Its address.
        addr: u64,
    },
    /// Chains of pointers to the matches.
    OffsetScan {
        /// Whether chains begin at global variables only.
        use_disasm: bool,
        /// How far below a pointer's target the next address may lie.
        lrange: usize,
        /// How far above a pointer's target the next address may lie.
        urange: usize,
        /// How many pointers a chain may have.
        max_depth: usize,
        /// The address that chains have to begin at, if any.
        filter: Option<u64>,
    },
}

/// What the command line asks for.
#[derive(Debug)]
pub struct Cli {
    /// How many `-v` flags there are.
    pub verbose: u8,
    /// The connectors of the chain.
    pub connector: Vec<String>,
    /// The operating systems of the chain.
    pub os: Vec<String>,
    /// Whether to run with more privileges.
    pub elevate: bool,
    /// The name of the process.
    pub program: Option<String>,
    /// The number of the process; it takes precedence over the name.
    pub pid: Option<u32>,
    /// The file that the history of lines is kept in.
    pub history_file: Option<String>,
    /// The command; the interactive mode where there is none.
    pub subcommand: Option<Command>,
}

/// The address that a text stands for: hexadecimal, with or without `0x` before it, or else
/// decimal.
pub open spec fn address_of(input: Seq<char>) -> Result<nat, IntError> {
    match unsigned_of(strip_0x(trimmed(input)), 16, u64::MAX as nat) {
        Ok(n) => Ok(n),
        Err(_) => unsigned_of(trimmed(input), 10, u64::MAX as nat),
    }
}

/// Parses an address: hexadecimal, with or without `0x` before it, or else decimal.
pub fn parse_address(input: &str) -> (r: Result<u64, String>)
    ensures
        match address_of(input@) {
            Ok(n) => r matches Ok(a) && a == n,
            Err(e) => r matches Err(text) && text@ == "invalid address `"@ + input@ + "`: "@
                + e.words(),
        },
{
    let all = trim(input);
    let bare = strip_hex_prefix(all.as_str());
    if let Ok(n) = parse_unsigned(bare.as_str(), 16, 0xFFFF_FFFF_FFFF_FFFF) {
        proof {
            lemma_unsigned_range(bare@, 16, u64::MAX as nat);
        }
        return Ok(n as u64);
    }
    match parse_unsigned(all.as_str(), 10, 0xFFFF_FFFF_FFFF_FFFF) {
        Ok(n) => {
            proof {
                lemma_unsigned_range(all@, 10, u64::MAX as nat);
            }
            Ok(n as u64)
        },
        Err(e) => {
            let mut text = owned("invalid address `");
            text.append(input);
            text.append("`: ");
            let why = e.message();
            text.append(why.as_str());
            Err(text)
        },
    }
}

/// Parses an address that may be missing: an empty text stands for none.
pub fn parse_address_optional(input: &str) -> (r: Result<Option<u64>, String>)
    ensures
        if input@.len() == 0 {
            r matches Ok(a) && a is None
        } else {
            match address_of(input@) {
                Ok(n) => r matches Ok(a) && a == Some(n as u64) && n <= u64::MAX,
                Err(e) => r matches Err(text) && text@ == "invalid address `"@ + input@ + "`: "@
                    + e.words(),
            }
        },
{
    if input.unicode_len() == 0 {
        return Ok(None);
    }
    match parse_address(input) {
        Ok(a) => Ok(Some(a)),
        Err(text) => Err(text),
    }
}

/// How much is logged.
#[derive(Clone, Copy, Debug, PartialEq, Eq, Structural)]
pub enum Level {
    /// Errors.
    Error,
    /// Warnings too.
    Warn,
    /// Notes too.
    Info,
    /// What helps to find faults too.
    Debug,
    /// Everything.
    Trace,
}

/// The log level for a number of `-v` flags: errors for one of them or none, and one level more for
/// each that follows.
pub fn log_level(verbose: u8) -> (r: Level)
    ensures
        verbose <= 1 ==> r == Level::Error,
        verbose == 2 ==> r == Level::Warn,
        verbose == 3 ==> r == Level::Info,
        verbose == 4 ==> r == Level::Debug,
        verbose >= 5 ==> r == Level::Trace,
{
    match verbose {
        0 | 1 => Level::Error,
        2 => Level::Warn,
        3 => Level::Info,
        4 => Level::Debug,
        _ => Level::Trace,
    }
}

/// A text that is hexadecimal, without `0x` before it, is read so; only what is not, is read as
/// decimal.
pub proof fn law_address_of(input: Seq<char>)
    ensures
        unsigned_of(strip_0x(trimmed(input)), 16, 0xFFFF_FFFF_FFFF_FFFF) matches Ok(n)
            ==> address_of(input) == Ok::<nat, IntError>(n),
        unsigned_of(strip_0x(trimmed(input)), 16, 0xFFFF_FFFF_FFFF_FFFF) is Err ==> address_of(input)
            == unsigned_of(trimmed(input), 10, 0xFFFF_FFFF_FFFF_FFFF),
{
}

/// Every address reads back from its hexadecimal digits, with and without `0x` before them.
pub proof fn law_address_reads_back(a: u64)
    ensures
        address_of(hex(a as nat)) == Ok::<nat, IntError>(a as nat),
        address_of(seq!['0', 'x'] + hex(a as nat)) == Ok::<nat, IntError>(a as nat),
{
    let s = hex(a as nat);
    let p = seq!['0', 'x'] + s;
    lemma_digits(a as nat, 16);
    lemma_digit_run(s, 16);
    assert(digit_of(s[0], 16) is Some);
    assert(digit_of(s[s.len() - 1], 16) is Some);
    law_trimmed(s, ' ');
    assert(p.last() == s.last());
    law_trimmed(p, ' ');
    law_hex_prefix(s);
    if s.len() >= 2 {
        assert(digit_of(s[1], 16) is Some);
    }
    law_read_written(a as nat, 16, u64::MAX as nat);
}

} // verus!
