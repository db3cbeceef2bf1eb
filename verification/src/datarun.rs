use vstd::prelude::*;

use crate::bytes::{le_u64, read_u64};

verus! {

/// One run of an NTFS attribute's run list: how many clusters it covers and
/// where it starts relative to the run before it.
#[derive(Copy, Clone, Debug, PartialEq, Eq, Structural)]
pub struct Datarun {
    pub length_lcn: u64,
    pub offset_lcn: i64,
}

/// The outcome of reading from a byte buffer: the value read and the number
/// of bytes it took, or the buffer ended before the value did.
#[derive(Debug, PartialEq, Eq, Structural)]
pub enum Parsed<T> {
    Done(T, usize),
    Incomplete,
}

/// The first eight bytes of `input`, with zeros after its end.
pub open spec fn padded8(input: Seq<u8>) -> Seq<u8> {
    Seq::new(8, |i: int| if i < input.len() { input[i] } else { 0u8 })
}

/// The unsigned little-endian number in the first (at most eight) bytes of `input`.
pub open spec fn length_value(input: Seq<u8>) -> u64 {
    le_u64(padded8(input))
}

/// `v` read as a two's-complement 64-bit number.
pub open spec fn as_signed(v: u64) -> int {
    if v < 0x8000_0000_0000_0000 {
        v as int
    } else {
        v - 0x1_0000_0000_0000_0000
    }
}

/// An offset field: its number read as signed, negated when its last byte
/// has the top bit set.
pub open spec fn offset_value(input: Seq<u8>) -> int {
    let r = as_signed(length_value(input));
    if input.len() > 0 && input.last() >= 0x80 {
        -r
    } else {
        r
    }
}

/// The negation an offset field asks for is defined (the number is not the
/// least `i64`).
pub open spec fn offset_defined(input: Seq<u8>) -> bool {
    !(input.len() > 0 && input.last() >= 0x80 && as_signed(length_value(input)) == i64::MIN)
}

/// The length in clusters of a run: the field's bytes, little-endian.
pub fn length_in_lcn(input: &[u8]) -> (r: u64)
    ensures
        r == length_value(input@),
{
    let mut base: Vec<u8> = Vec::new();
    let mut i: usize = 0;
    while i < 8
        invariant
            0 <= i <= 8,
            base@ =~= padded8(input@).take(i as int),
        decreases 8 - i,
    {
        if i < input.len() {
            base.push(input[i]);
        } else {
            base.push(0);
        }
        i = i + 1;
    }
    proof {
        assert(padded8(input@).take(8) =~= padded8(input@));
    }
    read_u64(base.as_slice())
}

/// The offset in clusters of a run, as the field gives it.
pub fn offset_in_lcn(input: &[u8]) -> (r: i64)
    requires
        offset_defined(input@),
    ensures
        r == offset_value(input@),
{
    let v = length_in_lcn(input);
    let result: i64 = if v < 0x8000_0000_0000_0000 {
        v as i64
    } else {
        ((v - 0x8000_0000_0000_0000) as i64) - 0x7fff_ffff_ffff_ffff - 1
    };
    if input.len() > 0 && input[input.len() - 1] >= 0x80 {
        0 - result
    } else {
        result
    }
}

/// The run whose header is at `pos`, and where the next one starts; `None`
/// when the buffer ends first. The header's low nibble counts the length
/// bytes, its high nibble the offset bytes that follow them.
pub open spec fn run_at(b: Seq<u8>, pos: int) -> Option<(Datarun, int)> {
    if pos < 0 || pos >= b.len() {
        None
    } else {
        let lo = (b[pos] % 16) as int;
        let hi = (b[pos] / 16) as int;
        let end = pos + 1 + lo + hi;
        if end > b.len() {
            None
        } else {
            Some(
                (
                    Datarun {
                        length_lcn: length_value(b.subrange(pos + 1, pos + 1 + lo)),
                        offset_lcn: offset_value(b.subrange(pos + 1 + lo, end)) as i64,
                    },
                    end,
                ),
            )
        }
    }
}

/// The runs from `pos` up to the terminating zero byte, and the position
/// after that byte; `None` when the buffer ends first.
pub open spec fn runs_from(b: Seq<u8>, pos: int) -> Option<(Seq<Datarun>, int)>
    decreases b.len() - pos,
{
    if pos < 0 || pos >= b.len() {
        None
    } else if b[pos] == 0 {
        Some((seq![], pos + 1))
    } else {
        match run_at(b, pos) {
            None => None,
            Some((run, next)) => {
                if next > pos {
                    match runs_from(b, next) {
                        None => None,
                        Some((rest, end)) => Some((seq![run] + rest, end)),
                    }
                } else {
                    None
                }
            },
        }
    }
}

/// Every run read from `pos` on has an offset whose negation is defined.
pub open spec fn runs_defined(b: Seq<u8>, pos: int) -> bool
    decreases b.len() - pos,
{
    if pos < 0 || pos >= b.len() || b[pos] == 0 {
        true
    } else {
        let lo = (b[pos] % 16) as int;
        let hi = (b[pos] / 16) as int;
        let end = pos + 1 + lo + hi;
        if end > b.len() {
            true
        } else {
            offset_defined(b.subrange(pos + 1 + lo, end)) && runs_defined(b, end)
        }
    }
}

/// Whether every offset field of the run list in `input` can be read: none
/// is the least `i64` made negative.
pub fn offsets_readable(input: &[u8]) -> (r: bool)
    ensures
        r == runs_defined(input@, 0),
{
    let mut pos: usize = 0;
    loop
        invariant
            0 <= pos <= input@.len(),
            runs_defined(input@, 0) == runs_defined(input@, pos as int),
        decreases input@.len() - pos,
    {
        if pos == input.len() || input[pos] == 0 {
            return true;
        }
        let lo = (input[pos] % 16) as usize;
        let hi = (input[pos] / 16) as usize;
        if input.len() - pos - 1 < lo + hi {
            return true;
        }
        let end = pos + 1 + lo + hi;
        let field = &input[pos + 1 + lo..end];
        let last_high = hi > 0 && field[hi - 1] >= 0x80;
        if last_high && length_in_lcn(field) == 0x8000_0000_0000_0000 {
            return false;
        }
        proof {
            assert(field@ =~= input@.subrange(pos + 1 + lo, end as int));
            if hi > 0 {
                assert(field@.last() == field@[hi - 1]);
            }
        }
        pos = end;
    }
}

/// Reads one run from the start of `input`.
pub fn datarun(input: &[u8]) -> (r: Parsed<Datarun>)
    requires
        input@.len() > 0 ==> {
            let lo = (input@[0] % 16) as int;
            let hi = (input@[0] / 16) as int;
            1 + lo + hi <= input@.len() ==> offset_defined(input@.subrange(1 + lo, 1 + lo + hi))
        },
    ensures
        match r {
            Parsed::Done(run, n) => run_at(input@, 0) == Some((run, n as int)),
            Parsed::Incomplete => run_at(input@, 0) is None,
        },
{
    if input.len() == 0 {
        return Parsed::Incomplete;
    }
    let header = input[0];
    let lo = (header % 16) as usize;
    let hi = (header / 16) as usize;
    if input.len() - 1 < lo + hi {
        return Parsed::Incomplete;
    }
    let length_lcn = length_in_lcn(&input[1..1 + lo]);
    let offset_lcn = offset_in_lcn(&input[1 + lo..1 + lo + hi]);
    Parsed::Done(Datarun { length_lcn, offset_lcn }, 1 + lo + hi)
}

/// Reads runs until the terminating zero byte. Gives the runs and the
/// number of bytes read, the terminator included.
pub fn dataruns(input: &[u8]) -> (r: Parsed<Vec<Datarun>>)
    requires
        runs_defined(input@, 0),
    ensures
        match r {
            Parsed::Done(runs, n) => runs_from(input@, 0) == Some((runs@, n as int)),
            Parsed::Incomplete => runs_from(input@, 0) is None,
        },
{
    let mut runs: Vec<Datarun> = Vec::new();
    let mut pos: usize = 0;
    loop
        invariant
            0 <= pos <= input@.len(),
            runs_defined(input@, pos as int),
            runs_from(input@, 0) == match runs_from(input@, pos as int) {
                None => None,
                Some((rest, end)) => Some((runs@ + rest, end)),
            },
        decreases input@.len() - pos,
    {
        if pos == input.len() {
            return Parsed::Incomplete;
        }
        if input[pos] == 0 {
            proof {
                assert(runs@ + Seq::<Datarun>::empty() =~= runs@);
            }
            return Parsed::Done(runs, pos + 1);
        }
        let rest = &input[pos..input.len()];
        proof {
            assert(rest@ =~= input@.subrange(pos as int, input@.len() as int));
            let lo = (input@[pos as int] % 16) as int;
            let hi = (input@[pos as int] / 16) as int;
            if pos + 1 + lo + hi <= input@.len() {
                assert(rest@.subrange(1 + lo, 1 + lo + hi) =~= input@.subrange(pos + 1 + lo, pos + 1 + lo + hi));
            }
        }
        match datarun(rest) {
            Parsed::Incomplete => {
                return Parsed::Incomplete;
            },
            Parsed::Done(run, n) => {
                proof {
                    let lo = (input@[pos as int] % 16) as int;
                    let hi = (input@[pos as int] / 16) as int;
                    assert(rest@.subrange(1, 1 + lo) =~= input@.subrange(pos + 1, pos + 1 + lo));
                    assert(rest@.subrange(1 + lo, 1 + lo + hi) =~= input@.subrange(pos + 1 + lo, pos + 1 + lo + hi));
                    assert(run_at(input@, pos as int) == Some((run, pos + n)));
                }
                let ghost old_runs = runs@;
                runs.push(run);
                pos = pos + n;
                proof {
                    match runs_from(input@, pos as int) {
                        None => {},
                        Some((rest_runs, end)) => {
                            assert(old_runs + (seq![run] + rest_runs) =~= runs@ + rest_runs);
                        },
                    }
                }
            },
        }
    }
}

} // verus!
