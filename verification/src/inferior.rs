//! The traced process, as far as it is arithmetic and decisions: word
//! alignment, patching one byte of a word, and what to do when the process
//! stops.

use crate::debugger::Breakpoint;
use crate::pattern::{regex_replace_all, replace_all};
use std::collections::HashMap;
use vstd::layout::layout_of_primitives;
use vstd::prelude::*;
use vstd::string::StringExecFns;

verus! {

/// Number of the signal that a breakpoint or a single step raises.
pub const SIGTRAP: i32 = 5;

/// The instruction that stands at a breakpoint.
pub const TRAP_INSTRUCTION: u8 = 0xcc;

/// How the traced process is after a wait. Signals are given by number.
#[derive(Debug, Clone, Copy, PartialEq, Eq, Structural)]
pub enum Status {
    /// The process stopped, by this signal, at this instruction pointer.
    Stopped(i32, usize),
    /// The process exited with this status code.
    Exited(i32),
    /// The process was killed by this signal.
    Signaled(i32),
}

impl Status {
    /// Whether the process is gone.
    pub open spec fn ended(self) -> bool {
        self is Exited || self is Signaled
    }

    /// Whether the process is gone.
    pub fn has_ended(&self) -> (b: bool)
        ensures
            b == self.ended(),
    {
        match self {
            Status::Stopped(_, _) => false,
            Status::Exited(_) => true,
            Status::Signaled(_) => true,
        }
    }
}

/// The bytes of one machine word.
pub open spec fn word_size() -> nat {
    vstd::layout::size_of::<usize>()
}

/// The start of the machine word that holds `addr`.
pub open spec fn aligned(addr: usize) -> int {
    addr - (addr as int) % (word_size() as int)
}

/// Rounds `addr` down to the start of its machine word.
pub fn align_addr_to_word(addr: usize) -> (start: usize)
    ensures
        start == aligned(addr),
        (start as int) % (word_size() as int) == 0,
        start <= addr < start + word_size(),
{
    broadcast use layout_of_primitives;

    let word: usize = core::mem::size_of::<usize>();
    assert(word == 4 || word == 8);
    let rest: usize = addr % word;
    assert((addr - rest) % (word as int) == 0) by {
        vstd::arithmetic::div_mod::lemma_fundamental_div_mod(addr as int, word as int);
        vstd::arithmetic::div_mod::lemma_mod_multiples_basic(
            (addr as int) / (word as int),
            word as int,
        );
    }
    addr - rest
}

/// Byte `i` of `word`, counted from the least significant one.
pub open spec fn byte_at(word: u64, i: u64) -> u64 {
    (word >> (8 * i)) & 0xff
}

/// Puts `val` in the place of byte `byte_offset` of `word`. Returns the byte
/// that stood there and the new word; every other byte of the word stays.
pub fn splice_byte(word: u64, byte_offset: usize, val: u8) -> (r: (u8, u64))
    requires
        byte_offset < 8,
    ensures
        r.0 == byte_at(word, byte_offset as u64),
        byte_at(r.1, byte_offset as u64) == val,
        forall|j: u64| j < 8 && j != byte_offset ==> byte_at(r.1, j) == byte_at(word, j),
{
    let off: u64 = byte_offset as u64;
    let v: u64 = val as u64;
    let shift: u64 = 8 * off;
    let orig_byte: u64 = (word >> shift) & 0xff;
    let masked_word: u64 = word & !(0xffu64 << shift);
    let updated_word: u64 = masked_word | (v << shift);
    assert(orig_byte <= 0xff) by (bit_vector)
        requires
            orig_byte == (word >> shift) & 0xff,
    ;
    assert((updated_word >> (8 * off)) & 0xff == v) by (bit_vector)
        requires
            off < 8,
            v <= 0xff,
            updated_word == (word & !(0xffu64 << (8 * off))) | (v << (8 * off)),
    ;
    assert forall|j: u64| j < 8 && j != off implies byte_at(updated_word, j) == byte_at(
        word,
        j,
    ) by {
        assert((updated_word >> (8 * j)) & 0xff == (word >> (8 * j)) & 0xff) by (bit_vector)
            requires
                off < 8,
                j < 8,
                j != off,
                v <= 0xff,
                updated_word == (word & !(0xffu64 << (8 * off))) | (v << (8 * off)),
        ;
    }
    (orig_byte as u8, updated_word)
}

/// Puts `val` at address `addr` into `word`, the machine word read from
/// `align_addr_to_word(addr)`. Returns the byte that stood there and the
/// word to write back.
pub fn patch_word(word: u64, addr: usize, val: u8) -> (r: (u8, u64))
    ensures
        r.0 == byte_at(word, (addr - aligned(addr)) as u64),
        byte_at(r.1, (addr - aligned(addr)) as u64) == val,
        forall|j: u64|
            j < 8 && j != addr - aligned(addr) ==> byte_at(r.1, j) == byte_at(word, j),
{
    broadcast use layout_of_primitives;

    let start: usize = align_addr_to_word(addr);
    splice_byte(word, addr - start, val)
}

/// Whether a breakpoint is set at `rip`, so that the instruction there has
/// to be stepped over before the process runs on.
pub fn at_breakpoint(breakpoints: &HashMap<usize, Breakpoint>, rip: usize) -> (b: bool)
    ensures
        b == breakpoints@.contains_key(rip),
{
    broadcast use vstd::std_specs::hash::group_hash_axioms;

    breakpoints.contains_key(&rip)
}

/// After a single step over a breakpoint: the status to report at once, if
/// the step did not end in the trap that a step raises. `None` says that the
/// breakpoint is to be put back and the process to run on.
pub fn after_single_step(status: Status) -> (report: Option<Status>)
    ensures
        report == (if status matches Status::Stopped(signal, _) && signal == SIGTRAP {
            None
        } else {
            Some(status)
        }),
{
    match status {
        Status::Stopped(signal, ip) => {
            if signal != SIGTRAP {
                Some(Status::Stopped(signal, ip))
            } else {
                None
            }
        },
        Status::Exited(code) => Some(Status::Exited(code)),
        Status::Signaled(signal) => Some(Status::Signaled(signal)),
    }
}

/// After the process has stopped with its instruction pointer at `rip`: the
/// breakpoint that it has just run into, if any. That breakpoint stands one
/// byte before `rip`; its instruction is to be put back and the instruction
/// pointer set to its address.
pub fn breakpoint_hit(breakpoints: &HashMap<usize, Breakpoint>, rip: usize) -> (hit: Option<
    Breakpoint,
>)
    requires
        rip >= 1,
    ensures
        hit == (if breakpoints@.contains_key((rip - 1) as usize) {
            Some(breakpoints@[(rip - 1) as usize])
        } else {
            None
        }),
{
    broadcast use vstd::std_specs::hash::group_hash_axioms;

    let before: usize = rip - 1;
    match breakpoints.get(&before) {
        Some(bp) => Some(*bp),
        None => None,
    }
}


/// The part of a source path that is cut off: everything up to the last
/// `deet/` in a line.
pub const PATH_PATTERN: &'static str = "(.*deet/)";

/// What stands in place of the part that is cut off.
pub const PATH_ROOT: &'static str = "/deet/";

/// A source position with its path made relative to the project: every
/// match of `PATH_PATTERN` replaced by `PATH_ROOT`. Should the pattern be
/// refused, the position stays as it is.
pub open spec fn shortened(line: Seq<char>) -> Seq<char> {
    match regex_replace_all(PATH_PATTERN@, line, PATH_ROOT@) {
        Some(text) => text,
        None => line,
    }
}

/// Makes the path in a source position relative to the project.
pub fn shorten_path(line: &str) -> (text: String)
    ensures
        text@ == shortened(line@),
{
    match replace_all(PATH_PATTERN, line, PATH_ROOT) {
        Some(text) => text,
        None => line.to_owned(),
    }
}

/// One line of a backtrace: the function, then the source position in
/// brackets.
pub fn location_text(func: &str, line: &str) -> (text: String)
    ensures
        text@ == func@ + " ("@ + line@ + ")"@,
{
    let mut text: String = func.to_owned();
    text.append(" (");
    text.append(line);
    text.append(")");
    text
}

/// Describes where the process stands, if both the source position and the
/// function are known: the line to print, with the path shortened, and the
/// name of the function.
pub fn describe_location(line: Option<&str>, func: Option<&str>) -> (r: Option<(String, String)>)
    ensures
        r.is_some() <==> line.is_some() && func.is_some(),
        r matches Some((text, name)) ==> {
            &&& text@ == func->0@ + " ("@ + shortened(line->0@) + ")"@
            &&& name@ == func->0@
        },
{
    match (line, func) {
        (Some(line), Some(func)) => {
            let short = shorten_path(line);
            Some((location_text(func, short.as_str()), func.to_owned()))
        },
        _ => None,
    }
}

} // verus!
