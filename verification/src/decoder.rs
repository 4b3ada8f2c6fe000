//! Instruction decoder: decodes exactly one machine instruction at a code
//! address, reporting its encoded length and classification. Relative
//! branches, calls and instruction-pointer-relative operands carry the
//! signed displacement that, added to the address of the next instruction,
//! yields the absolute target. A pure function of the bytes read: no side
//! effects, no shared state.

use vstd::prelude::*;

verus! {

/// Classification of one decoded instruction.
#[derive(Clone, Copy, PartialEq, Eq, Structural, Debug)]
pub enum InstrKind {
    /// Carries no relative reference: a copy of its bytes means the same
    /// thing at any address.
    Ordinary,
    /// Relative branch or call: the displacement is taken from the address
    /// of the next instruction.
    RelBranch,
    /// A memory operand addressed relative to the next instruction.
    IpRel,
    /// An encoding the decoder does not recognise; it cannot be relocated.
    Unsupported,
}

/// One decoded instruction: its encoded length, its classification and,
/// for relative kinds, the signed displacement. Immutable once decoded.
#[derive(Clone, Copy, PartialEq, Eq, Structural, Debug)]
pub struct Instr {
    pub len: usize,
    pub kind: InstrKind,
    /// Signed displacement for `RelBranch` and `IpRel`; zero otherwise.
    pub disp: i64,
}

/// Sign extension of one displacement byte.
pub open spec fn sext8(b: u8) -> int {
    if b < 0x80 {
        b as int
    } else {
        b as int - 0x100
    }
}

/// The unsigned value of four little-endian bytes.
pub open spec fn le32(b0: u8, b1: u8, b2: u8, b3: u8) -> int {
    b0 + 0x100 * (b1 as int) + 0x1_0000 * (b2 as int) + 0x100_0000 * (b3 as int)
}

/// Sign extension of a 32-bit unsigned value.
pub open spec fn sext32(v: int) -> int {
    if v < 0x8000_0000 {
        v
    } else {
        v - 0x1_0000_0000
    }
}

/// The signed 32-bit displacement encoded little-endian at `pos`.
pub open spec fn disp32_at(code: Seq<u8>, pos: int) -> int
    recommends
        0 <= pos,
        pos + 4 <= code.len(),
{
    sext32(le32(code[pos], code[pos + 1], code[pos + 2], code[pos + 3]))
}

/// The result for anything the decoder does not recognise. One byte is
/// consumed, so a caller that merely walks bytes can still make progress.
pub open spec fn unsupported_instr() -> Instr {
    Instr { len: 1, kind: InstrKind::Unsupported, disp: 0 }
}

/// What the decoder finds at `pos`. The recognised encodings:
/// one-byte no-ops, returns and register pushes/pops; five-byte register
/// loads of an immediate; short (one-byte) and near (four-byte) relative
/// jumps, conditional jumps and calls; and one instruction-pointer-relative
/// load. Everything else is `Unsupported`.
pub open spec fn spec_decode(code: Seq<u8>, pos: int) -> Instr {
    if !(0 <= pos < code.len()) {
        unsupported_instr()
    } else {
        let b = code[pos];
        if b == 0x90 || b == 0xC3 || (0x50 <= b && b <= 0x5F) {
            Instr { len: 1, kind: InstrKind::Ordinary, disp: 0 }
        } else if 0xB8 <= b && b <= 0xBF {
            if pos + 5 <= code.len() {
                Instr { len: 5, kind: InstrKind::Ordinary, disp: 0 }
            } else {
                unsupported_instr()
            }
        } else if b == 0xEB || (0x70 <= b && b <= 0x7F) {
            if pos + 2 <= code.len() {
                Instr { len: 2, kind: InstrKind::RelBranch, disp: sext8(code[pos + 1]) as i64 }
            } else {
                unsupported_instr()
            }
        } else if b == 0xE9 || b == 0xE8 {
            if pos + 5 <= code.len() {
                Instr { len: 5, kind: InstrKind::RelBranch, disp: disp32_at(code, pos + 1) as i64 }
            } else {
                unsupported_instr()
            }
        } else if b == 0x0F {
            if pos + 6 <= code.len() && 0x80 <= code[pos + 1] && code[pos + 1] <= 0x8F {
                Instr { len: 6, kind: InstrKind::RelBranch, disp: disp32_at(code, pos + 2) as i64 }
            } else {
                unsupported_instr()
            }
        } else if b == 0x8D {
            if pos + 6 <= code.len() && code[pos + 1] == 0x05 {
                Instr { len: 6, kind: InstrKind::IpRel, disp: disp32_at(code, pos + 2) as i64 }
            } else {
                unsupported_instr()
            }
        } else {
            unsupported_instr()
        }
    }
}

/// The absolute target of a relative instruction decoded at `addr`: the
/// address of the next instruction plus the displacement.
pub open spec fn branch_target(addr: int, i: Instr) -> int {
    addr + i.len + i.disp
}

/// Every recognised encoding is at most six bytes long, and at least one.
pub proof fn lemma_decode_len_bounds(code: Seq<u8>, pos: int)
    ensures
        1 <= spec_decode(code, pos).len <= 6,
{
}

/// A decoded instruction never runs past the end of the code, unless it is
/// the one-byte `Unsupported` placeholder.
pub proof fn lemma_decode_in_bounds(code: Seq<u8>, pos: int)
    requires
        0 <= pos < code.len(),
        spec_decode(code, pos).kind != InstrKind::Unsupported,
    ensures
        pos + spec_decode(code, pos).len <= code.len(),
{
}

/// Displacements are bounded by the 32-bit encoding.
pub proof fn lemma_decode_disp_bounds(code: Seq<u8>, pos: int)
    ensures
        -0x8000_0000 <= spec_decode(code, pos).disp <= 0x7FFF_FFFF,
{
}

/// How many unconditional jumps `spec_resolve` follows at most.
pub const RESOLVE_FUEL: usize = 8;

/// Where a pointer that may name a jump or thunk really leads: follows
/// unconditional jumps (short and near) through the code, a bounded number
/// of steps, and stops at the first byte that is not one, or that jumps
/// outside the code.
pub open spec fn spec_resolve(code: Seq<u8>, addr: int, fuel: nat) -> int
    decreases fuel,
{
    if fuel == 0 {
        addr
    } else {
        let i = spec_decode(code, addr);
        if 0 <= addr < code.len() && i.kind == InstrKind::RelBranch && (code[addr] == 0xEB
            || code[addr] == 0xE9) && 0 <= addr + i.len + i.disp < code.len() {
            spec_resolve(code, addr + i.len + i.disp, (fuel - 1) as nat)
        } else {
            addr
        }
    }
}

/// Resolves a pointer that may itself be a jump or thunk to the real code
/// entry it leads to.
pub fn code_from_pointer(code: &Vec<u8>, addr: usize) -> (r: usize)
    requires
        code@.len() <= crate::CODE_MAX,
    ensures
        r == spec_resolve(code@, addr as int, RESOLVE_FUEL as nat),
{
    let mut cur = addr;
    let mut fuel: usize = RESOLVE_FUEL;
    loop
        invariant
            code@.len() <= crate::CODE_MAX,
            fuel <= RESOLVE_FUEL,
            spec_resolve(code@, addr as int, RESOLVE_FUEL as nat) == spec_resolve(
                code@,
                cur as int,
                fuel as nat,
            ),
        decreases fuel,
    {
        if fuel == 0 {
            return cur;
        }
        let i = decode(code, cur);
        let is_jmp = cur < code.len() && i.kind == InstrKind::RelBranch && (code[cur] == 0xEB
            || code[cur] == 0xE9);
        if !is_jmp {
            return cur;
        }
        let t: i64 = (cur + i.len) as i64 + i.disp;
        if !(0 <= t && t < code.len() as i64) {
            return cur;
        }
        cur = t as usize;
        fuel = fuel - 1;
    }
}

/// Reads the signed 32-bit displacement stored little-endian at `pos`.
fn read_disp32(code: &Vec<u8>, pos: usize) -> (r: i64)
    requires
        pos + 4 <= code@.len(),
    ensures
        r == disp32_at(code@, pos as int),
{
    let n = code.len();
    let b0 = code[pos];
    let b1 = code[pos + 1];
    let b2 = code[pos + 2];
    let b3 = code[pos + 3];
    let v: u32 = b0 as u32 + 0x100 * (b1 as u32) + 0x1_0000 * (b2 as u32) + 0x100_0000 * (b3
        as u32);
    if v < 0x8000_0000 {
        v as i64
    } else {
        v as i64 - 0x1_0000_0000
    }
}

/// Decodes exactly one instruction at `pos`.
pub fn decode(code: &Vec<u8>, pos: usize) -> (r: Instr)
    ensures
        r == spec_decode(code@, pos as int),
{
    if pos >= code.len() {
        return Instr { len: 1, kind: InstrKind::Unsupported, disp: 0 };
    }
    let b = code[pos];
    let remaining = code.len() - pos;
    if b == 0x90 || b == 0xC3 || (0x50 <= b && b <= 0x5F) {
        Instr { len: 1, kind: InstrKind::Ordinary, disp: 0 }
    } else if 0xB8 <= b && b <= 0xBF {
        if remaining >= 5 {
            Instr { len: 5, kind: InstrKind::Ordinary, disp: 0 }
        } else {
            Instr { len: 1, kind: InstrKind::Unsupported, disp: 0 }
        }
    } else if b == 0xEB || (0x70 <= b && b <= 0x7F) {
        if remaining >= 2 {
            let d = code[pos + 1];
            let disp: i64 = if d < 0x80 {
                d as i64
            } else {
                d as i64 - 0x100
            };
            Instr { len: 2, kind: InstrKind::RelBranch, disp }
        } else {
            Instr { len: 1, kind: InstrKind::Unsupported, disp: 0 }
        }
    } else if b == 0xE9 || b == 0xE8 {
        if remaining >= 5 {
            Instr { len: 5, kind: InstrKind::RelBranch, disp: read_disp32(code, pos + 1) }
        } else {
            Instr { len: 1, kind: InstrKind::Unsupported, disp: 0 }
        }
    } else if b == 0x0F {
        if remaining >= 6 && 0x80 <= code[pos + 1] && code[pos + 1] <= 0x8F {
            Instr { len: 6, kind: InstrKind::RelBranch, disp: read_disp32(code, pos + 2) }
        } else {
            Instr { len: 1, kind: InstrKind::Unsupported, disp: 0 }
        }
    } else if b == 0x8D {
        if remaining >= 6 && code[pos + 1] == 0x05 {
            Instr { len: 6, kind: InstrKind::IpRel, disp: read_disp32(code, pos + 2) }
        } else {
            Instr { len: 1, kind: InstrKind::Unsupported, disp: 0 }
        }
    } else {
        Instr { len: 1, kind: InstrKind::Unsupported, disp: 0 }
    }
}

} // verus!
