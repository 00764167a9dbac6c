//! The debugger's own data: breakpoints and the places they can be set at.

use vstd::prelude::*;
use vstd::string::StringSliceAdditionalSpecFns;

verus! {

/// A breakpoint: its address, and the byte of the instruction that the trap
/// instruction has replaced there.
#[derive(Debug, Clone, Copy, PartialEq, Eq, Structural)]
pub struct Breakpoint {
    pub addr: usize,
    pub inst: u8,
}

impl Breakpoint {
    /// A breakpoint at `addr` that has not been written to a process yet.
    pub fn new(addr: usize) -> (bp: Breakpoint)
        ensures
            bp == (Breakpoint { addr, inst: 0 }),
    {
        Breakpoint { addr, inst: 0 }
    }
}


/// A place in the program, as typed after `break`.
#[derive(Debug, Clone, PartialEq, Eq)]
pub enum Location {
    /// A raw address, typed as `*` and hexadecimal digits.
    Address(usize),
    /// A line of the source, typed as a decimal number.
    Line(usize),
    /// A function, typed by its name.
    Function(String),
}

/// The mathematical content of a [`Location`].
pub enum LocationView {
    Address(usize),
    Line(usize),
    Function(Seq<char>),
}

impl View for Location {
    type V = LocationView;

    open spec fn view(&self) -> LocationView {
        match self {
            Location::Address(addr) => LocationView::Address(*addr),
            Location::Line(line) => LocationView::Line(*line),
            Location::Function(name) => LocationView::Function(name@),
        }
    }
}

/// The value of the digit that byte `b` stands for in base `radix`, as in
/// `0`-`9`, `a`-`z` and `A`-`Z`; `None` for any other byte and for a digit
/// that the base does not have.
pub open spec fn digit_of(b: u8, radix: nat) -> Option<nat> {
    let v: nat = if 48 <= b <= 57 {
        (b - 48) as nat
    } else if 97 <= b <= 122 {
        (b - 97 + 10) as nat
    } else if 65 <= b <= 90 {
        (b - 65 + 10) as nat
    } else {
        36
    };
    if v < radix {
        Some(v)
    } else {
        None
    }
}

/// The number that `digits` spell in base `radix`; `None` if one of them is
/// no digit of that base.
pub open spec fn digits_value(digits: Seq<u8>, radix: nat) -> Option<nat>
    decreases digits.len(),
{
    if digits.len() == 0 {
        Some(0)
    } else {
        match (digits_value(digits.drop_last(), radix), digit_of(digits.last(), radix)) {
            (Some(high), Some(low)) => Some(high * radix + low),
            _ => None,
        }
    }
}

/// The number that `text` spells in base `radix`: an optional `+`, then at
/// least one digit, and a value that fits in a `usize`. Anything else is no
/// number.
pub open spec fn number_of(text: Seq<u8>, radix: nat) -> Option<usize> {
    let digits = if text.len() > 0 && text[0] == 43 {
        text.drop_first()
    } else {
        text
    };
    if digits.len() == 0 {
        None
    } else {
        match digits_value(digits, radix) {
            Some(v) => if v <= usize::MAX {
                Some(v as usize)
            } else {
                None
            },
            None => None,
        }
    }
}

/// Whether `bytes` begin with `*0x` or `*0X`.
pub open spec fn has_hex_prefix(bytes: Seq<u8>) -> bool {
    bytes.len() >= 3 && bytes[0] == 42 && bytes[1] == 48 && (bytes[2] == 120 || bytes[2] == 88)
}

/// The place that a text names, given as its bytes and its characters.
/// After `*`, and `0x` if it is there, stands an address in base 16, and a
/// text that fails there names nothing. Any other text is a line number if
/// it is a number in base 10, and else the name of a function.
pub open spec fn location_of(bytes: Seq<u8>, text: Seq<char>) -> Option<LocationView> {
    if bytes.len() > 0 && bytes[0] == 42 {
        let from: int = if has_hex_prefix(bytes) {
            3
        } else {
            1
        };
        match number_of(bytes.subrange(from, bytes.len() as int), 16) {
            Some(addr) => Some(LocationView::Address(addr)),
            None => None,
        }
    } else {
        match number_of(bytes, 10) {
            Some(line) => Some(LocationView::Line(line)),
            None => Some(LocationView::Function(text)),
        }
    }
}

/// The digits before a place spell a number whenever all of them do, and
/// not a larger one.
proof fn lemma_digits_prefix(digits: Seq<u8>, radix: nat, k: int)
    requires
        0 <= k <= digits.len(),
        radix >= 1,
        digits_value(digits, radix) is Some,
    ensures
        digits_value(digits.take(k), radix) is Some,
        digits_value(digits.take(k), radix)->0 <= digits_value(digits, radix)->0,
    decreases digits.len(),
{
    if k == digits.len() {
        assert(digits.take(k) =~= digits);
    } else {
        let init = digits.drop_last();
        lemma_digits_prefix(init, radix, k);
        assert(init.take(k) =~= digits.take(k));
        let high = digits_value(init, radix)->0;
        let low = digit_of(digits.last(), radix)->0;
        assert(high <= high * radix + low) by (nonlinear_arith)
            requires
                radix >= 1,
        ;
    }
}

/// The digit that byte `b` stands for in base `radix`.
fn digit(b: u8, radix: usize) -> (d: Option<usize>)
    requires
        2 <= radix <= 36,
    ensures
        d matches Some(v) ==> digit_of(b, radix as nat) == Some(v as nat) && v < radix,
        d is None ==> digit_of(b, radix as nat) is None,
{
    let v: usize = if 48 <= b && b <= 57 {
        (b - 48) as usize
    } else if 97 <= b && b <= 122 {
        (b - 97) as usize + 10
    } else if 65 <= b && b <= 90 {
        (b - 65) as usize + 10
    } else {
        36
    };
    if v < radix {
        Some(v)
    } else {
        None
    }
}

/// Reads the number that the bytes from index `from` on spell in base
/// `radix`.
fn parse_number(bytes: &[u8], from: usize, radix: usize) -> (n: Option<usize>)
    requires
        from <= bytes@.len(),
        2 <= radix <= 36,
    ensures
        n == number_of(bytes@.subrange(from as int, bytes@.len() as int), radix as nat),
{
    let ghost text = bytes@.subrange(from as int, bytes@.len() as int);
    let mut i: usize = from;
    if i < bytes.len() && bytes[i] == 43 {
        i += 1;
    }
    let first: usize = i;
    let ghost digits = bytes@.subrange(first as int, bytes@.len() as int);
    proof {
        if text.len() > 0 && text[0] == 43 {
            assert(digits =~= text.drop_first());
        } else {
            assert(digits =~= text);
        }
    }
    if i == bytes.len() {
        return None;
    }
    let ghost goal = number_of(text, radix as nat);
    let mut value: usize = 0;
    assert(digits.take(0) =~= Seq::<u8>::empty());
    while i < bytes.len()
        invariant
            first <= i <= bytes@.len(),
            2 <= radix <= 36,
            digits == bytes@.subrange(first as int, bytes@.len() as int),
            digits_value(digits.take(i - first), radix as nat) == Some(value as nat),
            from <= first,
            goal == number_of(bytes@.subrange(from as int, bytes@.len() as int), radix as nat),
            goal == (match digits_value(digits, radix as nat) {
                Some(v) => if v <= usize::MAX {
                    Some(v as usize)
                } else {
                    None
                },
                None => None,
            }),
        decreases bytes@.len() - i,
    {
        let ghost upto = digits.take(i - first + 1);
        proof {
            assert(upto.drop_last() =~= digits.take(i - first));
            assert(upto.last() == bytes@[i as int]);
        }
        match digit(bytes[i], radix) {
            None => {
                proof {
                    if digits_value(digits, radix as nat) is Some {
                        lemma_digits_prefix(digits, radix as nat, i - first + 1);
                    }
                }
                return None;
            },
            Some(d) => {
                if value > (usize::MAX - d) / radix {
                    proof {
                        assert(value * radix + d > usize::MAX) by (nonlinear_arith)
                            requires
                                value > (usize::MAX - d) / (radix as int),
                                radix >= 2,
                                d <= usize::MAX,
                        ;
                        if digits_value(digits, radix as nat) is Some {
                            lemma_digits_prefix(digits, radix as nat, i - first + 1);
                        }
                    }
                    return None;
                }
                assert(value * radix + d <= usize::MAX) by (nonlinear_arith)
                    requires
                        value <= (usize::MAX - d) / (radix as int),
                        radix >= 2,
                        d <= usize::MAX,
                ;
                value = value * radix + d;
            },
        }
        i += 1;
    }
    assert(digits.take(digits.len() as int) =~= digits);
    assert(goal == Some(value));
    Some(value)
}

/// Reads the place that `loc` names.
pub fn parse_location(loc: &str) -> (place: Option<Location>)
    ensures
        place.is_some() == location_of(loc.spec_bytes(), loc@).is_some(),
        place matches Some(p) ==> Some(p@) == location_of(loc.spec_bytes(), loc@),
{
    let bytes = loc.as_bytes();
    if bytes.len() > 0 && bytes[0] == 42 {
        let from: usize = if bytes.len() >= 3 && bytes[1] == 48 && (bytes[2] == 120 || bytes[2]
            == 88) {
            3
        } else {
            1
        };
        match parse_number(bytes, from, 16) {
            Some(addr) => Some(Location::Address(addr)),
            None => None,
        }
    } else {
        assert(bytes@.subrange(0, bytes@.len() as int) =~= bytes@);
        match parse_number(bytes, 0, 10) {
            Some(line) => Some(Location::Line(line)),
            None => Some(Location::Function(loc.to_owned())),
        }
    }
}

} // verus!
