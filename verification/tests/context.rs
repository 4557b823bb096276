use green_threads::context::{switch, ThreadContext};

fn numbered(seed: u64) -> ThreadContext {
    ThreadContext {
        rsp: seed + 1,
        r15: seed + 2,
        r14: seed + 3,
        r13: seed + 4,
        r12: seed + 5,
        rbx: seed + 6,
        rbp: seed + 7,
    }
}

#[test]
fn default_context_is_zeroed() {
    let ctx = ThreadContext::default();
    assert_eq!(ctx, ThreadContext { rsp: 0, r15: 0, r14: 0, r13: 0, r12: 0, rbx: 0, rbp: 0 });
}

#[test]
fn switch_saves_live_and_loads_target() {
    let mut saved = numbered(100);
    let target = numbered(200);
    let mut live = numbered(300);
    switch(&mut saved, &target, &mut live);
    assert_eq!(saved, numbered(300));
    assert_eq!(live, numbered(200));
    assert_eq!(target, numbered(200));
}

#[test]
fn switch_transfers_every_register() {
    let mut saved = ThreadContext::default();
    let target = ThreadContext {
        rsp: 0x7000_0000_0000_1000,
        r15: 15,
        r14: 14,
        r13: 13,
        r12: 12,
        rbx: 0xb,
        rbp: 0xffff_ffff_ffff_ffff,
    };
    let mut live = ThreadContext {
        rsp: 0x7fff_0000,
        r15: 0xf15,
        r14: 0xf14,
        r13: 0xf13,
        r12: 0xf12,
        rbx: 0xfb,
        rbp: 0xfbb,
    };
    switch(&mut saved, &target, &mut live);
    assert_eq!(saved.rsp, 0x7fff_0000);
    assert_eq!(saved.r15, 0xf15);
    assert_eq!(saved.r14, 0xf14);
    assert_eq!(saved.r13, 0xf13);
    assert_eq!(saved.r12, 0xf12);
    assert_eq!(saved.rbx, 0xfb);
    assert_eq!(saved.rbp, 0xfbb);
    assert_eq!(live.rsp, 0x7000_0000_0000_1000);
    assert_eq!(live.r15, 15);
    assert_eq!(live.r14, 14);
    assert_eq!(live.r13, 13);
    assert_eq!(live.r12, 12);
    assert_eq!(live.rbx, 0xb);
    assert_eq!(live.rbp, 0xffff_ffff_ffff_ffff);
}

#[test]
fn switch_there_and_back_restores_the_registers() {
    let first = numbered(10);
    let second = numbered(20);
    let mut first_saved = ThreadContext::default();
    let mut second_saved = second;
    let mut live = first;
    switch(&mut first_saved, &second_saved.clone(), &mut live);
    assert_eq!(live, second);
    live.rbx = 999;
    live.rsp -= 64;
    let resumed = first_saved;
    switch(&mut second_saved, &resumed, &mut live);
    assert_eq!(live, first);
    assert_eq!(second_saved.rbx, 999);
    assert_eq!(second_saved.rsp, second.rsp - 64);
}
