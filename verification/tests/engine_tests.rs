use detours::decoder::{decode, InstrKind};
use detours::engine::{Engine, HookState, ThreadCtx};
use detours::trampoline::{build, JMP32_LEN};
use detours::DetourError;

// a tiny program image: a function of one-byte instructions at 1, a
// detour at 16, the rest padding
fn image() -> Vec<u8> {
    let mut img = vec![0x90u8; 64];
    img[1] = 0x50;
    img[2] = 0x51;
    img[3] = 0x90;
    img[4] = 0x90;
    img[5] = 0xC3;
    img[16] = 0xC3;
    img
}

#[test]
fn decode_classifies_short_jump() {
    let code = vec![0xEBu8, 0x10];
    let i = decode(&code, 0);
    assert_eq!(i.len, 2);
    assert!(matches!(i.kind, InstrKind::RelBranch));
    assert_eq!(i.disp, 0x10);
}

#[test]
fn decode_unknown_byte_is_unsupported() {
    let code = vec![0xF4u8];
    let i = decode(&code, 0);
    assert!(matches!(i.kind, InstrKind::Unsupported));
}

#[test]
fn begin_twice_reports_already_open() {
    let mut e = Engine::new(image(), 0x10000);
    assert!(e.transaction_begin(true).is_ok());
    assert_eq!(e.transaction_begin(true), Err(DetourError::AlreadyOpen));
    assert!(e.transaction_abort().is_ok());
}

#[test]
fn abort_restores_queued_attach() {
    let mut e = Engine::new(image(), 0x10000);
    let cell = e.register_cell(1);
    assert!(e.transaction_begin(true).is_ok());
    assert!(e.attach(cell, 16).is_ok());
    assert!(e.transaction_abort().is_ok());
    // nothing patched, the cell untouched
    assert_eq!(e.mem[1], 0x50);
    assert_eq!(e.cells[cell], 1);
}

#[test]
fn attach_without_transaction_is_refused() {
    let mut e = Engine::new(image(), 0x10000);
    let cell = e.register_cell(1);
    assert_eq!(e.attach(cell, 16), Err(DetourError::NotOpen));
}

#[test]
fn commit_patches_and_detach_restores() {
    let mut e = Engine::new(image(), 0x10000);
    let cell = e.register_cell(1);
    let mut threads: Vec<ThreadCtx> = Vec::new();
    assert!(e.transaction_begin(true).is_ok());
    assert!(e.attach(cell, 16).is_ok());
    assert!(e.transaction_commit(&mut threads).is_ok());
    // the entry now branches to the detour: E9 then the displacement
    // 16 - (1 + 5) = 10, little-endian
    assert_eq!(e.mem[1], 0xE9);
    assert_eq!(&e.mem[2..6], &[10, 0, 0, 0]);
    // the cell routes through the trampoline, which replays the saved
    // prologue and jumps back to offset 6
    let slot = e.cells[cell];
    assert!(slot >= 64);
    assert_eq!(&e.mem[slot..slot + 5], &[0x50, 0x51, 0x90, 0x90, 0xC3]);
    assert_eq!(e.mem[slot + 5], 0xE9);
    // round trip: detach and commit restore the original bytes exactly
    assert!(e.transaction_begin(true).is_ok());
    assert!(e.detach(cell, 16).is_ok());
    assert!(e.transaction_commit(&mut threads).is_ok());
    assert_eq!(&e.mem[..64], &image()[..]);
    assert_eq!(e.cells[cell], 1);
}

#[test]
fn commit_moves_thread_caught_in_prologue() {
    let mut e = Engine::new(image(), 0x10000);
    let cell = e.register_cell(1);
    // one thread sits on the third instruction of the prologue
    let mut threads = vec![ThreadCtx { ip: 3, suspendable: true }];
    assert!(e.transaction_begin(true).is_ok());
    assert!(e.attach(cell, 16).is_ok());
    assert!(e.transaction_commit(&mut threads).is_ok());
    // it was moved to the same instruction inside the trampoline
    let slot = e.cells[cell];
    assert_eq!(threads[0].ip, slot + 2);
}

#[test]
fn commit_fails_on_unsuspendable_thread() {
    let mut e = Engine::new(image(), 0x10000);
    let cell = e.register_cell(1);
    let mut threads = vec![ThreadCtx { ip: 0, suspendable: false }];
    assert!(e.transaction_begin(true).is_ok());
    assert!(e.attach(cell, 16).is_ok());
    assert_eq!(
        e.transaction_commit(&mut threads),
        Err(DetourError::ThreadControlFailure)
    );
    // full rollback: nothing patched, transaction closed
    assert_eq!(e.mem[1], 0x50);
    assert_eq!(e.transaction_abort(), Err(DetourError::NotOpen));
}

#[test]
fn unsupported_prologue_fails_build_and_attach() {
    // a prologue engineered to be undecodable
    let mut img = image();
    img[1] = 0xF4;
    let mut e = Engine::new(img.clone(), 0x10000);
    let cell = e.register_cell(1);
    assert!(e.transaction_begin(true).is_ok());
    assert_eq!(e.attach(cell, 16), Err(DetourError::UnrelocatableInstruction));
    assert!(e.transaction_abort().is_ok());
    assert_eq!(&e.mem[..64], &img[..]);
    // build itself reports the same, committing nothing
    let r = build(&img, 1, 64, JMP32_LEN);
    assert!(matches!(r, Err(DetourError::UnrelocatableInstruction)));
}

#[test]
fn inline_hook_round_trip() {
    let mut e = Engine::new(image(), 0x10000);
    let cell = e.register_cell(1);
    let mut threads: Vec<ThreadCtx> = Vec::new();
    assert!(e.inline_hook(true, cell, 16, &mut threads).is_ok());
    assert_eq!(e.mem[1], 0xE9);
    assert_eq!(e.hooks.last().unwrap().state, HookState::Attached);
    assert!(e.inline_hook(false, cell, 16, &mut threads).is_ok());
    assert_eq!(&e.mem[..64], &image()[..]);
    assert_eq!(e.cells[cell], 1);
}

#[test]
fn inline_hooks_batch_is_atomic() {
    let mut img = image();
    // a second function at 8, and a second detour at 17
    img[8] = 0x52;
    img[9] = 0x53;
    img[10] = 0x90;
    img[11] = 0x90;
    img[12] = 0x90;
    img[13] = 0xC3;
    img[17] = 0xC3;
    let mut e = Engine::new(img.clone(), 0x10000);
    let c1 = e.register_cell(1);
    let c2 = e.register_cell(8);
    let mut threads: Vec<ThreadCtx> = Vec::new();
    let changes = vec![(c1, 16), (c2, 17)];
    assert!(e.inline_hooks(true, &changes, &mut threads).is_ok());
    assert_eq!(e.mem[1], 0xE9);
    assert_eq!(e.mem[8], 0xE9);
    // a batch with one bad change leaves everything untouched
    let mut e2 = Engine::new(img.clone(), 0x10000);
    let d1 = e2.register_cell(1);
    let d2 = e2.register_cell(0); // null target: invalid
    let bad = vec![(d1, 16), (d2, 17)];
    assert_eq!(
        e2.inline_hooks(true, &bad, &mut threads),
        Err(DetourError::InvalidParameter)
    );
    assert_eq!(&e2.mem[..64], &img[..]);
}

#[test]
fn code_from_pointer_follows_jump_chain() {
    // 0: jmp +2 (to 4); 4: jmp -3 (to 3)? keep it simple:
    // 0: EB 02 -> 4; 4: EB 00 -> 6; 6: C3
    let mut code = vec![0x90u8; 16];
    code[0] = 0xEB;
    code[1] = 0x02;
    code[4] = 0xEB;
    code[5] = 0x00;
    code[6] = 0xC3;
    let e = Engine::new(code, 0x10000);
    assert_eq!(e.code_from_pointer(0), 6);
    assert_eq!(e.code_from_pointer(6), 6);
}

#[test]
fn trampoline_relocates_relative_branch() {
    // prologue with a short branch inside it: 1: jcc +2; target 1+2+2 = 5
    let mut img = image();
    img[1] = 0x74; // je rel8
    img[2] = 0x02;
    // from a nearby slot the branch stays short, its displacement
    // recomputed to reach absolute address 5: 5 - (64 + 2) = -61
    let near = 64usize;
    let t = build(&img, 1, near, JMP32_LEN).unwrap();
    assert_eq!(t.bytes[0], 0x74);
    assert_eq!(near as i64 + 2 + (t.bytes[1] as i8) as i64, 5);
    // from a distant slot it widens to the near form, still reaching 5
    let far = 0x2000usize;
    let t2 = build(&img, 1, far, JMP32_LEN).unwrap();
    assert_eq!(t2.bytes[0], 0x0F);
    assert_eq!(t2.bytes[1], 0x84);
    let d = i32::from_le_bytes([t2.bytes[2], t2.bytes[3], t2.bytes[4], t2.bytes[5]]);
    assert_eq!(far as i64 + 6 + d as i64, 5);
}
