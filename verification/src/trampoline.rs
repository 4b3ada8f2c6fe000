//! Trampoline builder: copies enough leading instructions of a function
//! into an allocated slot to make room for a redirecting branch, fixing up
//! relative references so they still resolve to their original absolute
//! targets from the new location, and appends a branch back to the first
//! byte past the relocated region.

use vstd::prelude::*;

use crate::decoder::{
    branch_target, decode, le32, sext8, sext32, spec_decode, Instr, InstrKind,
    lemma_decode_len_bounds,
};
use crate::memory::SLOT_SIZE;
use crate::CODE_MAX;
use crate::DetourError;

verus! {

/// Length in bytes of the near jump the engine writes over a hooked
/// function's entry.
pub const JMP32_LEN: usize = 5;

/// Largest value `build` accepts for the room the redirecting branch
/// needs; keeps every trampoline within one slot.
pub const MAX_BRANCH_SIZE: usize = 10;

/// The two's-complement 32-bit value of a signed displacement.
pub open spec fn u32_of_disp(d: int) -> int {
    if d >= 0 {
        d
    } else {
        d + 0x1_0000_0000
    }
}

/// Four little-endian bytes of an unsigned 32-bit value.
pub open spec fn enc32(v: int) -> Seq<u8> {
    seq![
        (v % 0x100) as u8,
        ((v / 0x100) % 0x100) as u8,
        ((v / 0x1_0000) % 0x100) as u8,
        ((v / 0x100_0000) % 0x100) as u8,
    ]
}

/// The one displacement byte of a short branch.
pub open spec fn enc8(d: int) -> u8 {
    if d >= 0 {
        d as u8
    } else {
        (d + 0x100) as u8
    }
}

/// The bytes of a near jump written at address `src`, reaching `target`.
pub open spec fn jmp32_bytes(src: int, target: int) -> Seq<u8> {
    seq![0xE9u8] + enc32(u32_of_disp(target - (src + JMP32_LEN)))
}

/// Reading four little-endian bytes undoes `enc32`.
pub proof fn lemma_enc32_le32(v: int)
    requires
        0 <= v < 0x1_0000_0000,
    ensures
        le32(enc32(v)[0], enc32(v)[1], enc32(v)[2], enc32(v)[3]) == v,
{
    let b0 = v % 0x100;
    let q1 = v / 0x100;
    let b1 = q1 % 0x100;
    let q2 = v / 0x1_0000;
    let b2 = q2 % 0x100;
    let q3 = v / 0x100_0000;
    assert(0 <= b0 < 0x100 && 0 <= b1 < 0x100 && 0 <= b2 < 0x100 && 0 <= q3 < 0x100);
    assert(v == b0 + 0x100 * b1 + 0x1_0000 * b2 + 0x100_0000 * q3) by (nonlinear_arith)
        requires
            0 <= v < 0x1_0000_0000,
            b0 == v % 0x100,
            b1 == (v / 0x100) % 0x100,
            b2 == (v / 0x1_0000) % 0x100,
            q3 == v / 0x100_0000,
    ;
}

/// Sign extension undoes the two's-complement encoding, for values a
/// 32-bit displacement can carry.
pub proof fn lemma_sext32_u32(d: int)
    requires
        -0x8000_0000 <= d < 0x8000_0000,
    ensures
        sext32(u32_of_disp(d)) == d,
{
}

/// A near jump encoded by `jmp32_bytes` decodes to a relative branch whose
/// absolute target is `target`.
pub proof fn lemma_jmp32_decodes(code: Seq<u8>, pos: int, src: int, target: int)
    requires
        0 <= pos,
        pos + JMP32_LEN <= code.len(),
        code.subrange(pos, pos + JMP32_LEN) == jmp32_bytes(src, target),
        -0x8000_0000 <= target - (src + JMP32_LEN) < 0x8000_0000,
    ensures
        spec_decode(code, pos) == (Instr { len: 5, kind: InstrKind::RelBranch, disp: (target - (src
            + JMP32_LEN)) as i64 }),
        branch_target(src, spec_decode(code, pos)) == target,
{
    let j = jmp32_bytes(src, target);
    let d = target - (src + JMP32_LEN);
    let v = u32_of_disp(d);
    assert(code[pos] == code.subrange(pos, pos + JMP32_LEN)[0]);
    assert(code[pos + 1] == code.subrange(pos, pos + JMP32_LEN)[1]);
    assert(code[pos + 2] == code.subrange(pos, pos + JMP32_LEN)[2]);
    assert(code[pos + 3] == code.subrange(pos, pos + JMP32_LEN)[3]);
    assert(code[pos + 4] == code.subrange(pos, pos + JMP32_LEN)[4]);
    assert(code[pos] == 0xE9);
    assert(code[pos + 1] == enc32(v)[0] && code[pos + 2] == enc32(v)[1] && code[pos + 3] == enc32(
        v,
    )[2] && code[pos + 4] == enc32(v)[3]);
    lemma_enc32_le32(v);
    lemma_sext32_u32(d);
}

/// What one relocated instruction looks like in the trampoline: the
/// instruction decoded in `code` at `func + o`, re-emitted for address
/// `slot + n`. Ordinary instructions keep their bytes; relative forms get
/// their displacement recomputed, a short branch widening to a near one
/// when the new displacement no longer fits one byte. Meaningless when the
/// instruction is unsupported or its target falls outside the code space.
pub open spec fn relocate_bytes(code: Seq<u8>, func: int, o: int, slot: int, n: int) -> Seq<u8> {
    let i = spec_decode(code, func + o);
    let target = func + o + i.len + i.disp;
    match i.kind {
        InstrKind::Ordinary => code.subrange(func + o, func + o + i.len),
        InstrKind::RelBranch => {
            let b = code[func + o];
            if b == 0xEB {
                let d8 = target - (slot + n + 2);
                if -0x80 <= d8 < 0x80 {
                    seq![0xEBu8, enc8(d8)]
                } else {
                    seq![0xE9u8] + enc32(u32_of_disp(target - (slot + n + 5)))
                }
            } else if 0x70 <= b && b <= 0x7F {
                let d8 = target - (slot + n + 2);
                if -0x80 <= d8 < 0x80 {
                    seq![b, enc8(d8)]
                } else {
                    seq![0x0Fu8, (b + 0x10) as u8] + enc32(u32_of_disp(target - (slot + n + 6)))
                }
            } else if b == 0xE9 || b == 0xE8 {
                seq![b] + enc32(u32_of_disp(target - (slot + n + 5)))
            } else {
                // 0x0F-prefixed conditional branch
                seq![0x0Fu8, code[func + o + 1]] + enc32(u32_of_disp(target - (slot + n + 6)))
            }
        },
        InstrKind::IpRel => seq![0x8Du8, 0x05u8] + enc32(u32_of_disp(target - (slot + n + 6))),
        InstrKind::Unsupported => Seq::empty(),
    }
}

/// A relocated instruction is never shorter than one byte nor longer than
/// six, and never grows by more than four bytes.
pub proof fn lemma_relocate_len(code: Seq<u8>, func: int, o: int, slot: int, n: int)
    requires
        spec_decode(code, func + o).kind != InstrKind::Unsupported,
    ensures
        1 <= relocate_bytes(code, func, o, slot, n).len() <= 6,
        relocate_bytes(code, func, o, slot, n).len() <= spec_decode(code, func + o).len + 4,
{
    lemma_decode_len_bounds(code, func + o);
}

/// The relocated bytes decode to an instruction of the same classification
/// whose absolute target, taken from its new address `slot + n`, is the
/// original's; ordinary instructions decode exactly as they did.
pub proof fn lemma_relocate_decodes(code: Seq<u8>, func: int, o: int, slot: int, n: int, bytes: Seq<u8>)
    requires
        0 <= func + o,
        0 <= slot + n,
        slot + n + 6 <= CODE_MAX,
        code.len() <= CODE_MAX,
        spec_decode(code, func + o).kind != InstrKind::Unsupported,
        0 <= func + o + spec_decode(code, func + o).len + spec_decode(code, func + o).disp
            < CODE_MAX,
        0 <= n,
        n + relocate_bytes(code, func, o, slot, n).len() <= bytes.len(),
        bytes.subrange(n, n + relocate_bytes(code, func, o, slot, n).len() as int) == relocate_bytes(
            code,
            func,
            o,
            slot,
            n,
        ),
    ensures
        ({
            let oi = spec_decode(code, func + o);
            let ni = spec_decode(bytes, n);
            &&& ni.kind == oi.kind
            &&& oi.kind == InstrKind::Ordinary ==> ni == oi
            &&& oi.kind != InstrKind::Ordinary ==> branch_target(slot + n, ni) == branch_target(
                func + o,
                oi,
            )
            &&& ni.len == relocate_bytes(code, func, o, slot, n).len()
        }),
{
    let oi = spec_decode(code, func + o);
    let r = relocate_bytes(code, func, o, slot, n);
    let target = func + o + oi.len + oi.disp;
    let m = r.len() as int;
    if m >= 1 {
        assert(bytes.subrange(n, n + m)[0] == bytes[n + 0]);
        assert(bytes[n] == r[0]);
    }
    if m >= 2 {
        assert(bytes.subrange(n, n + m)[1] == bytes[n + 1]);
        assert(bytes[n + 1] == r[1]);
    }
    if m >= 3 {
        assert(bytes.subrange(n, n + m)[2] == bytes[n + 2]);
        assert(bytes[n + 2] == r[2]);
    }
    if m >= 4 {
        assert(bytes.subrange(n, n + m)[3] == bytes[n + 3]);
        assert(bytes[n + 3] == r[3]);
    }
    if m >= 5 {
        assert(bytes.subrange(n, n + m)[4] == bytes[n + 4]);
        assert(bytes[n + 4] == r[4]);
    }
    if m >= 6 {
        assert(bytes.subrange(n, n + m)[5] == bytes[n + 5]);
        assert(bytes[n + 5] == r[5]);
    }
    match oi.kind {
        InstrKind::Ordinary => {
            assert(bytes[n] == code[func + o]);
            if oi.len == 5 {
                assert(bytes[n + 1] == code[func + o + 1]);
                assert(bytes[n + 2] == code[func + o + 2]);
                assert(bytes[n + 3] == code[func + o + 3]);
                assert(bytes[n + 4] == code[func + o + 4]);
            }
        },
        InstrKind::RelBranch => {
            let b = code[func + o];
            assert(bytes[n] == r[0]);
            if b == 0xEB || (0x70 <= b && b <= 0x7F) {
                let d8 = target - (slot + n + 2);
                if -0x80 <= d8 < 0x80 {
                    assert(bytes[n] == b && bytes[n + 1] == enc8(d8));
                    assert(sext8(enc8(d8)) == d8);
                } else if b == 0xEB {
                    let d = target - (slot + n + 5);
                    let v = u32_of_disp(d);
                    assert(bytes[n] == 0xE9);
                    assert(bytes[n + 1] == enc32(v)[0] && bytes[n + 2] == enc32(v)[1] && bytes[n
                        + 3] == enc32(v)[2] && bytes[n + 4] == enc32(v)[3]);
                    lemma_enc32_le32(v);
                    lemma_sext32_u32(d);
                } else {
                    let d = target - (slot + n + 6);
                    let v = u32_of_disp(d);
                    assert(bytes[n] == 0x0F && bytes[n + 1] == (b + 0x10) as u8);
                    assert(0x80 <= bytes[n + 1] <= 0x8F);
                    assert(bytes[n + 2] == enc32(v)[0] && bytes[n + 3] == enc32(v)[1] && bytes[n
                        + 4] == enc32(v)[2] && bytes[n + 5] == enc32(v)[3]);
                    lemma_enc32_le32(v);
                    lemma_sext32_u32(d);
                }
            } else if b == 0xE9 || b == 0xE8 {
                let d = target - (slot + n + 5);
                let v = u32_of_disp(d);
                assert(bytes[n] == b);
                assert(bytes[n + 1] == enc32(v)[0] && bytes[n + 2] == enc32(v)[1] && bytes[n + 3]
                    == enc32(v)[2] && bytes[n + 4] == enc32(v)[3]);
                lemma_enc32_le32(v);
                lemma_sext32_u32(d);
            } else {
                let d = target - (slot + n + 6);
                let v = u32_of_disp(d);
                assert(bytes[n] == 0x0F && bytes[n + 1] == code[func + o + 1]);
                assert(0x80 <= bytes[n + 1] <= 0x8F);
                assert(bytes[n + 2] == enc32(v)[0] && bytes[n + 3] == enc32(v)[1] && bytes[n + 4]
                    == enc32(v)[2] && bytes[n + 5] == enc32(v)[3]);
                lemma_enc32_le32(v);
                lemma_sext32_u32(d);
            }
        },
        InstrKind::IpRel => {
            let d = target - (slot + n + 6);
            let v = u32_of_disp(d);
            assert(bytes[n] == 0x8D && bytes[n + 1] == 0x05);
            assert(bytes[n + 2] == enc32(v)[0] && bytes[n + 3] == enc32(v)[1] && bytes[n + 4]
                == enc32(v)[2] && bytes[n + 5] == enc32(v)[3]);
            lemma_enc32_le32(v);
            lemma_sext32_u32(d);
        },
        InstrKind::Unsupported => {},
    }
}

/// Appends the four little-endian bytes of `v`.
fn push_u32le(out: &mut Vec<u8>, v: u32)
    ensures
        final(out)@ == old(out)@ + enc32(v as int),
{
    let b0 = (v % 0x100) as u8;
    let b1 = ((v / 0x100) % 0x100) as u8;
    let b2 = ((v / 0x1_0000) % 0x100) as u8;
    let b3 = ((v / 0x100_0000) % 0x100) as u8;
    out.push(b0);
    out.push(b1);
    out.push(b2);
    out.push(b3);
    proof {
        assert(final(out)@ =~= old(out)@ + enc32(v as int));
    }
}

/// Appends a signed 32-bit displacement in two's complement, little-endian.
pub(crate) fn push_disp32(out: &mut Vec<u8>, d: i64)
    requires
        -0x8000_0000 <= d < 0x8000_0000,
    ensures
        final(out)@ == old(out)@ + enc32(u32_of_disp(d as int)),
{
    let v: u32 = if d >= 0 {
        d as u32
    } else {
        (d + 0x1_0000_0000) as u32
    };
    push_u32le(out, v);
}

/// Relocates the one instruction found at `func + o` to the trampoline
/// being grown in `out`, whose next free byte will live at address
/// `slot + out.len()`. Fails when the instruction is unsupported or its
/// target lies outside the code space, and then appends nothing.
fn relocate_one(code: &Vec<u8>, func: usize, o: usize, slot: usize, out: &mut Vec<u8>) -> (r:
    Result<(), DetourError>)
    requires
        code@.len() <= CODE_MAX,
        func + o <= CODE_MAX + 16,
        slot + SLOT_SIZE <= CODE_MAX,
        old(out)@.len() + 6 <= SLOT_SIZE,
    ensures
        ({
            let i = spec_decode(code@, func + o);
            let target = func + o + i.len + i.disp;
            match r {
                Ok(()) => {
                    &&& i.kind != InstrKind::Unsupported
                    &&& (i.kind != InstrKind::Ordinary ==> 0 <= target < CODE_MAX)
                    &&& final(out)@ == old(out)@ + relocate_bytes(
                        code@,
                        func as int,
                        o as int,
                        slot as int,
                        old(out)@.len() as int,
                    )
                },
                Err(e) => {
                    &&& e == DetourError::UnrelocatableInstruction
                    &&& final(out)@ == old(out)@
                    &&& (i.kind == InstrKind::Unsupported || (i.kind != InstrKind::Ordinary && !(0
                        <= target < CODE_MAX)))
                },
            }
        }),
{
    let ghost base = (func + o) as int;
    let i = decode(code, func + o);
    match i.kind {
        InstrKind::Unsupported => Err(DetourError::UnrelocatableInstruction),
        InstrKind::Ordinary => {
            proof {
                crate::decoder::lemma_decode_in_bounds(code@, base);
            }
            let mut k: usize = 0;
            while k < i.len
                invariant
                    i == spec_decode(code@, base),
                    i.kind == InstrKind::Ordinary,
                    base == func + o,
                    func + o + i.len <= code@.len(),
                    code@.len() <= CODE_MAX,
                    k <= i.len,
                    out@ == old(out)@ + code@.subrange(base, base + k),
                decreases i.len - k,
            {
                out.push(code[func + o + k]);
                proof {
                    assert(out@ =~= old(out)@ + code@.subrange(base, base + k + 1));
                }
                k = k + 1;
            }
            Ok(())
        },
        _ => {
            proof {
                crate::decoder::lemma_decode_disp_bounds(code@, base);
            }
            let t: i64 = (func + o + i.len) as i64 + i.disp;
            if !(0 <= t && t < CODE_MAX as i64) {
                return Err(DetourError::UnrelocatableInstruction);
            }
            let n = out.len();
            let b = code[func + o];
            if i.len == 2 {
                // short relative branch: keep it short when the new
                // displacement still fits, otherwise widen to the near form
                let d8: i64 = t - (slot + n + 2) as i64;
                if -0x80 <= d8 && d8 < 0x80 {
                    out.push(b);
                    let e: u8 = if d8 >= 0 {
                        d8 as u8
                    } else {
                        (d8 + 0x100) as u8
                    };
                    out.push(e);
                    proof {
                        assert(out@ =~= old(out)@ + relocate_bytes(
                            code@,
                            func as int,
                            o as int,
                            slot as int,
                            n as int,
                        ));
                    }
                } else if b == 0xEB {
                    out.push(0xE9);
                    push_disp32(out, t - (slot + n + 5) as i64);
                    proof {
                        assert(out@ =~= old(out)@ + relocate_bytes(
                            code@,
                            func as int,
                            o as int,
                            slot as int,
                            n as int,
                        ));
                    }
                } else {
                    out.push(0x0F);
                    out.push(b + 0x10);
                    push_disp32(out, t - (slot + n + 6) as i64);
                    proof {
                        assert(out@ =~= old(out)@ + relocate_bytes(
                            code@,
                            func as int,
                            o as int,
                            slot as int,
                            n as int,
                        ));
                    }
                }
            } else if i.len == 5 {
                out.push(b);
                push_disp32(out, t - (slot + n + 5) as i64);
                proof {
                    assert(out@ =~= old(out)@ + relocate_bytes(
                        code@,
                        func as int,
                        o as int,
                        slot as int,
                        n as int,
                    ));
                }
            } else {
                // six bytes: a prefixed conditional branch or the
                // instruction-pointer-relative load; both keep their two
                // leading bytes
                out.push(b);
                out.push(code[func + o + 1]);
                push_disp32(out, t - (slot + n + 6) as i64);
                proof {
                    assert(out@ =~= old(out)@ + relocate_bytes(
                        code@,
                        func as int,
                        o as int,
                        slot as int,
                        n as int,
                    ));
                }
            }
            Ok(())
        },
    }
}

/// Copies one instruction from `src`, relocated for the address
/// `slot + out.len()`, appending it to `out`. Returns the address of the
/// next instruction at the source, the absolute target of a relative
/// instruction, and how many bytes the relocation grew by. Fails — adding
/// nothing — on an encoding that cannot be safely relocated.
pub fn copy_instruction(code: &Vec<u8>, src: usize, slot: usize, out: &mut Vec<u8>) -> (r: Result<
    (usize, Option<usize>, usize),
    DetourError,
>)
    requires
        code@.len() <= CODE_MAX,
        src <= CODE_MAX,
        slot + SLOT_SIZE <= CODE_MAX,
        old(out)@.len() + 6 <= SLOT_SIZE,
    ensures
        ({
            let i = spec_decode(code@, src as int);
            let target = src + i.len + i.disp;
            match r {
                Ok((next, tgt, extra)) => {
                    &&& i.kind != InstrKind::Unsupported
                    &&& next == src + i.len
                    &&& final(out)@ == old(out)@ + relocate_bytes(
                        code@,
                        src as int,
                        0,
                        slot as int,
                        old(out)@.len() as int,
                    )
                    &&& (i.kind == InstrKind::Ordinary ==> tgt is None && extra == 0)
                    &&& (i.kind != InstrKind::Ordinary ==> tgt == Some(target as usize) && 0
                        <= target < CODE_MAX)
                    &&& final(out)@.len() == old(out)@.len() + i.len + extra
                },
                Err(e) => {
                    &&& e == DetourError::UnrelocatableInstruction
                    &&& final(out)@ == old(out)@
                    &&& (i.kind == InstrKind::Unsupported || (i.kind != InstrKind::Ordinary && !(0
                        <= target < CODE_MAX)))
                },
            }
        }),
{
    let i = decode(code, src);
    let n = out.len();
    match relocate_one(code, src, 0, slot, out) {
        Err(e) => Err(e),
        Ok(()) => {
            proof {
                lemma_relocate_len(code@, src as int, 0, slot as int, n as int);
            }
            let emitted = out.len() - n;
            if i.kind == InstrKind::Ordinary {
                Ok((src + i.len, None, 0))
            } else {
                let t: i64 = (src + i.len) as i64 + i.disp;
                Ok((src + i.len, Some(t as usize), emitted - i.len))
            }
        },
    }
}

/// An executable block holding a relocated prologue followed by a branch
/// back to the first untouched instruction of the original function.
/// `offsets` maps each relocated instruction's offset in the original
/// prologue to its offset in `bytes`; its last pair maps the first
/// untouched offset, `prologue_len`, to the closing branch.
pub struct Trampoline {
    /// Address of the original function.
    pub func: usize,
    /// Address the trampoline occupies: `bytes` belongs at `slot`.
    pub slot: usize,
    /// How many leading bytes of the original the trampoline replays.
    pub prologue_len: usize,
    /// The built content.
    pub bytes: Vec<u8>,
    /// (offset in the original prologue, offset in `bytes`), one pair per
    /// relocated instruction, in order, closed by
    /// `(prologue_len, start of the closing branch)`.
    pub offsets: Vec<(usize, usize)>,
}

/// Two consecutive offset pairs describe one correctly relocated
/// instruction: the original decodes, its target lies in the code space
/// when it has one, the offsets advance by the original and relocated
/// lengths, and the trampoline bytes between them are its relocation.
pub open spec fn entry_step(
    code: Seq<u8>,
    func: int,
    slot: int,
    bytes: Seq<u8>,
    e1: (usize, usize),
    e2: (usize, usize),
) -> bool {
    let o1 = e1.0 as int;
    let n1 = e1.1 as int;
    let o2 = e2.0 as int;
    let n2 = e2.1 as int;
    let i = spec_decode(code, func + o1);
    let r = relocate_bytes(code, func, o1, slot, n1);
    &&& i.kind != InstrKind::Unsupported
    &&& (i.kind != InstrKind::Ordinary ==> 0 <= func + o1 + i.len + i.disp < CODE_MAX)
    &&& o2 == o1 + i.len
    &&& n2 == n1 + r.len()
    &&& n2 <= bytes.len()
    &&& bytes.subrange(n1, n2) == r
}

/// The offset map describes a gapless run of relocated instructions
/// starting at the top of the function and of the trampoline.
pub open spec fn chain_ok(
    code: Seq<u8>,
    func: int,
    slot: int,
    bytes: Seq<u8>,
    m: Seq<(usize, usize)>,
) -> bool {
    &&& m.len() >= 2
    &&& m[0].0 == 0 && m[0].1 == 0
    &&& forall|a: int, b: int|
        0 <= a && b == a + 1 && b < m.len() ==> entry_step(
            code,
            func,
            slot,
            bytes,
            #[trigger] m[a],
            #[trigger] m[b],
        )
}

/// Whether `need` more bytes of prologue can be relocated from `pos`:
/// every instruction met is a recognised encoding and, when it carries a
/// relative reference, its absolute target lies inside the code space.
/// This is exactly when `build` succeeds.
pub open spec fn prologue_ok(code: Seq<u8>, pos: int, need: int) -> bool
    decreases need,
{
    if need <= 0 {
        true
    } else {
        let i = spec_decode(code, pos);
        &&& i.kind != InstrKind::Unsupported
        &&& (i.kind != InstrKind::Ordinary ==> 0 <= pos + i.len + i.disp < CODE_MAX)
        &&& (i.len < need ==> prologue_ok(code, pos + i.len, need - i.len))
    }
}

/// One instruction decodes the same in two code spaces that agree on the
/// six bytes at `pos`.
pub proof fn lemma_decode_agree(code1: Seq<u8>, code2: Seq<u8>, pos: int)
    requires
        0 <= pos,
        pos + 6 <= code1.len(),
        pos + 6 <= code2.len(),
        code1.subrange(pos, pos + 6) == code2.subrange(pos, pos + 6),
    ensures
        spec_decode(code1, pos) == spec_decode(code2, pos),
{
    assert(code1.subrange(pos, pos + 6)[0] == code1[pos + 0]);
    assert(code1.subrange(pos, pos + 6)[1] == code1[pos + 1]);
    assert(code1.subrange(pos, pos + 6)[2] == code1[pos + 2]);
    assert(code1.subrange(pos, pos + 6)[3] == code1[pos + 3]);
    assert(code1.subrange(pos, pos + 6)[4] == code1[pos + 4]);
    assert(code1.subrange(pos, pos + 6)[5] == code1[pos + 5]);
    assert(code2.subrange(pos, pos + 6)[0] == code2[pos + 0]);
    assert(code2.subrange(pos, pos + 6)[1] == code2[pos + 1]);
    assert(code2.subrange(pos, pos + 6)[2] == code2[pos + 2]);
    assert(code2.subrange(pos, pos + 6)[3] == code2[pos + 3]);
    assert(code2.subrange(pos, pos + 6)[4] == code2[pos + 4]);
    assert(code2.subrange(pos, pos + 6)[5] == code2[pos + 5]);
}

/// Relocatability of a short prologue is decided by the bytes near it
/// alone: two code spaces agreeing on `need + 5` bytes at `pos` agree on
/// it.
pub proof fn lemma_prologue_ok_agree(code1: Seq<u8>, code2: Seq<u8>, pos: int, need: int)
    requires
        0 <= pos,
        need <= MAX_BRANCH_SIZE,
        pos + need + 5 <= code1.len(),
        pos + need + 5 <= code2.len(),
        code1.subrange(pos, pos + need + 5) == code2.subrange(pos, pos + need + 5),
    ensures
        prologue_ok(code1, pos, need) == prologue_ok(code2, pos, need),
    decreases need,
{
    if need > 0 {
        assert(code1.subrange(pos, pos + 6) =~= code2.subrange(pos, pos + 6)) by {
            assert forall|t: int| 0 <= t < 6 implies #[trigger] code1.subrange(pos, pos + 6)[t]
                == code2.subrange(pos, pos + 6)[t] by {
                assert(code1.subrange(pos, pos + need + 5)[t] == code1[pos + t]);
                assert(code2.subrange(pos, pos + need + 5)[t] == code2[pos + t]);
            }
        }
        lemma_decode_agree(code1, code2, pos);
        let i = spec_decode(code1, pos);
        crate::decoder::lemma_decode_len_bounds(code1, pos);
        if i.kind != InstrKind::Unsupported && i.len < need {
            assert(code1.subrange(pos + i.len, pos + i.len + (need - i.len) + 5) =~= code2.subrange(
                pos + i.len,
                pos + i.len + (need - i.len) + 5,
            )) by {
                assert forall|t: int|
                    0 <= t < need - i.len + 5 implies #[trigger] code1.subrange(
                    pos + i.len,
                    pos + i.len + (need - i.len) + 5,
                )[t] == code2.subrange(pos + i.len, pos + i.len + (need - i.len) + 5)[t] by {
                    assert(code1.subrange(pos, pos + need + 5)[i.len + t] == code1[pos + i.len
                        + t]);
                    assert(code2.subrange(pos, pos + need + 5)[i.len + t] == code2[pos + i.len
                        + t]);
                }
            }
            lemma_prologue_ok_agree(code1, code2, pos + i.len, need - i.len);
        }
    }
}

impl Trampoline {
    /// The closing branch's offset inside `bytes`.
    pub open spec fn back_jmp_off(self) -> int {
        self.offsets@[self.offsets@.len() - 1].1 as int
    }

    /// Everything `build` guarantees: a well-formed offset chain over the
    /// original code, a closing branch to the first untouched byte, and the
    /// whole block within one slot.
    pub open spec fn wf(self, code: Seq<u8>) -> bool {
        let m = self.offsets@;
        &&& chain_ok(code, self.func as int, self.slot as int, self.bytes@, m)
        &&& m[m.len() - 1].0 == self.prologue_len
        &&& self.bytes@.len() == self.back_jmp_off() + JMP32_LEN
        &&& self.bytes@.len() <= SLOT_SIZE
        &&& self.bytes@.subrange(self.back_jmp_off(), self.bytes@.len() as int) == jmp32_bytes(
            self.slot + self.back_jmp_off(),
            self.func + self.prologue_len,
        )
        &&& self.func + self.prologue_len <= code.len()
        &&& self.slot + SLOT_SIZE <= CODE_MAX
    }
}

/// Walks whole instructions at `func` until at least `branch_size` bytes
/// are consumed, relocating each into a block meant for the slot at
/// `slot`, then appends a branch back to the first byte past the consumed
/// prologue. Fails with `UnrelocatableInstruction` when it meets an
/// encoding it cannot safely relocate, committing nothing.
pub fn build(code: &Vec<u8>, func: usize, slot: usize, branch_size: usize) -> (r: Result<
    Trampoline,
    DetourError,
>)
    requires
        code@.len() <= CODE_MAX,
        func <= code@.len(),
        slot + SLOT_SIZE <= CODE_MAX,
        1 <= branch_size <= MAX_BRANCH_SIZE,
    ensures
        match r {
            Ok(t) => {
                &&& t.wf(code@)
                &&& t.func == func
                &&& t.slot == slot
                &&& branch_size <= t.prologue_len
                &&& t.prologue_len <= branch_size + 5
                &&& prologue_ok(code@, func as int, branch_size as int)
            },
            Err(e) => {
                &&& e == DetourError::UnrelocatableInstruction
                &&& !prologue_ok(code@, func as int, branch_size as int)
            },
        },
{
    let mut out: Vec<u8> = Vec::new();
    let mut offsets: Vec<(usize, usize)> = Vec::new();
    offsets.push((0, 0));
    let mut consumed: usize = 0;
    while consumed < branch_size
        invariant
            code@.len() <= CODE_MAX,
            func <= code@.len(),
            slot + SLOT_SIZE <= CODE_MAX,
            1 <= branch_size <= MAX_BRANCH_SIZE,
            consumed <= branch_size + 5,
            out@.len() <= 5 * consumed,
            offsets@.len() >= 1,
            offsets@[0].0 == 0 && offsets@[0].1 == 0,
            offsets@[offsets@.len() - 1].0 == consumed,
            offsets@[offsets@.len() - 1].1 == out@.len(),
            prologue_ok(code@, func as int, branch_size as int) == prologue_ok(
                code@,
                func + consumed,
                branch_size - consumed,
            ),
            forall|a: int, b: int|
                0 <= a && b == a + 1 && b < offsets@.len() ==> entry_step(
                    code@,
                    func as int,
                    slot as int,
                    out@,
                    #[trigger] offsets@[a],
                    #[trigger] offsets@[b],
                ),
        decreases branch_size + 6 - consumed,
    {
        let o = consumed;
        let n = out.len();
        let i = decode(code, func + o);
        let ghost prev_out = out@;
        let ghost prev_offsets = offsets@;
        match relocate_one(code, func, o, slot, &mut out) {
            Err(e) => {
                proof {
                    assert(!prologue_ok(code@, func + consumed, branch_size - consumed));
                }
                return Err(e);
            },
            Ok(()) => {},
        }
        proof {
            lemma_decode_len_bounds(code@, (func + o) as int);
            lemma_relocate_len(code@, func as int, o as int, slot as int, n as int);
            assert(prologue_ok(code@, func + o, branch_size - o) == prologue_ok(
                code@,
                func + o + i.len,
                branch_size - o - i.len,
            ));
        }
        consumed = consumed + i.len;
        offsets.push((consumed, out.len()));
        proof {
            let m = offsets@;
            assert forall|a: int, b: int|
                0 <= a && b == a + 1 && b < m.len() implies entry_step(
                code@,
                func as int,
                slot as int,
                out@,
                #[trigger] m[a],
                #[trigger] m[b],
            ) by {
                if b < m.len() - 1 {
                    assert(m[a] == prev_offsets[a] && m[b] == prev_offsets[b]);
                    assert(entry_step(
                        code@,
                        func as int,
                        slot as int,
                        prev_out,
                        prev_offsets[a],
                        prev_offsets[b],
                    ));
                    assert(out@.subrange(m[a].1 as int, m[b].1 as int) =~= prev_out.subrange(
                        m[a].1 as int,
                        m[b].1 as int,
                    ));
                } else {
                    assert(m[a] == prev_offsets[prev_offsets.len() - 1]);
                    assert(out@.subrange(n as int, out@.len() as int) =~= relocate_bytes(
                        code@,
                        func as int,
                        o as int,
                        slot as int,
                        n as int,
                    ));
                }
            }
        }
    }
    let n_end = out.len();
    let ghost prev_out = out@;
    out.push(0xE9);
    push_disp32(&mut out, (func + consumed) as i64 - (slot + n_end + JMP32_LEN) as i64);
    let t = Trampoline { func, slot, prologue_len: consumed, bytes: out, offsets };
    proof {
        let m = t.offsets@;
        assert(t.bytes@.subrange(n_end as int, t.bytes@.len() as int) =~= jmp32_bytes(
            slot + n_end,
            func + consumed,
        ));
        assert forall|a: int, b: int|
            0 <= a && b == a + 1 && b < m.len() implies entry_step(
            code@,
            func as int,
            slot as int,
            t.bytes@,
            #[trigger] m[a],
            #[trigger] m[b],
        ) by {
            assert(entry_step(code@, func as int, slot as int, prev_out, m[a], m[b]));
            assert(t.bytes@.subrange(m[a].1 as int, m[b].1 as int) =~= prev_out.subrange(
                m[a].1 as int,
                m[b].1 as int,
            ));
        }
        // the last relocated instruction ends inside the code, so the
        // whole consumed prologue does
        let last = m.len() - 2;
        assert(entry_step(code@, func as int, slot as int, t.bytes@, m[last], m[last + 1]));
        crate::decoder::lemma_decode_in_bounds(code@, func + m[last].0 as int);
    }
    Ok(t)
}

} // verus!
