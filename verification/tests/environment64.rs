use touchhle::a64_runtime::A64Context;
use touchhle::environment64::{
    bind_import, classify_halt, host_call_step, initial_context, prepare_stack, return_from_host_call, write_svc_stub,
    Halt, HostCallOutcome, HostStubs, RunState, MAX_HOST_DISPATCHES, MAX_REPEATED_PC, RET_INSTRUCTION, STACK_BASE, STACK_SIZE, SVC_HOST_BASE,
};
use touchhle::mach_o64::Binding64;
use touchhle::mem64::{Mem64, MAP_OVERLAPS};

fn read_c_string(mem: &Mem64, address: u64) -> String {
    let len = mem.cstr_len(address, 4096).unwrap();
    String::from_utf8(mem.read_bytes(address, len).unwrap()).unwrap()
}

#[test]
fn stack_holds_argc_and_null_terminated_string_arrays() {
    let mut mem = Mem64::new();
    let argv = vec!["/Apps/Game".to_string(), "-v".to_string()];
    let envp: Vec<String> = Vec::new();
    let apple = vec!["executable_path=/Apps/Game".to_string()];
    let (sp, argv_ptr, envp_ptr, apple_ptr) = prepare_stack(&mut mem, &argv, &envp, &apple).unwrap();
    assert_eq!(sp % 16, 0);
    assert!(sp >= STACK_BASE - STACK_SIZE && sp < STACK_BASE);
    assert_eq!(argv_ptr, sp + 8);
    assert_eq!(envp_ptr, argv_ptr + 3 * 8);
    assert_eq!(apple_ptr, envp_ptr + 8);
    assert_eq!(mem.read_u64(sp), Ok(2));
    let arg0 = mem.read_u64(argv_ptr).unwrap();
    let arg1 = mem.read_u64(argv_ptr + 8).unwrap();
    assert_eq!(mem.read_u64(argv_ptr + 16), Ok(0));
    assert_eq!(mem.read_u64(envp_ptr), Ok(0));
    let apple0 = mem.read_u64(apple_ptr).unwrap();
    assert_eq!(mem.read_u64(apple_ptr + 8), Ok(0));
    // The strings are pushed last first, and the array lists them in the
    // order they were pushed.
    assert_eq!(read_c_string(&mem, arg0), "-v");
    assert_eq!(read_c_string(&mem, arg1), "/Apps/Game");
    assert_eq!(read_c_string(&mem, apple0), "executable_path=/Apps/Game");
    assert!(arg0 > arg1);
}

#[test]
fn stack_cannot_be_prepared_twice() {
    let mut mem = Mem64::new();
    prepare_stack(&mut mem, &[], &[], &[]).unwrap();
    assert_eq!(prepare_stack(&mut mem, &[], &[], &[]).unwrap_err(), MAP_OVERLAPS);
}

#[test]
fn oversized_arguments_overflow_the_stack() {
    let mut mem = Mem64::new();
    let big = vec!["x".repeat(STACK_SIZE as usize)];
    assert!(prepare_stack(&mut mem, &big, &[], &[]).is_err());
}

#[test]
fn svc_stubs_hold_svc_and_ret() {
    let mut mem = Mem64::new();
    let stub = write_svc_stub(&mut mem, 0x123).unwrap();
    assert_eq!(mem.read_u32(stub), Ok(0xd400_0001 | (0x123 << 5)));
    assert_eq!(mem.read_u32(stub + 4), Ok(RET_INSTRUCTION));
    let second = write_svc_stub(&mut mem, 2).unwrap();
    assert_eq!(mem.read_u32(second), Ok(0xd400_0041));
    assert!(second >= stub + 8);
}

#[test]
fn each_host_function_gets_one_numbered_stub() {
    let mut mem = Mem64::new();
    let mut stubs = HostStubs::new();
    let malloc = "malloc".to_string();
    let free = "free".to_string();
    let a = stubs.stub_for(&mut mem, &"_malloc".to_string(), &malloc).unwrap();
    let b = stubs.stub_for(&mut mem, &"_free".to_string(), &free).unwrap();
    let again = stubs.stub_for(&mut mem, &"malloc".to_string(), &malloc).unwrap();
    assert_eq!(a, again);
    assert_ne!(a, b);
    assert_eq!(stubs.len(), 2);
    assert_eq!(mem.read_u32(a), Ok(0xd400_0001 | (SVC_HOST_BASE << 5)));
    assert_eq!(mem.read_u32(b), Ok(0xd400_0001 | ((SVC_HOST_BASE + 1) << 5)));
    assert_eq!(stubs.binding_for_svc(SVC_HOST_BASE as i32).map(|s| s.as_str()), Some("_malloc"));
    assert_eq!(stubs.binding_for_svc(SVC_HOST_BASE as i32 + 1).map(|s| s.as_str()), Some("_free"));
    assert_eq!(stubs.binding_for_svc(SVC_HOST_BASE as i32 + 2), None);
    assert_eq!(stubs.binding_for_svc(2), None);
}

#[test]
fn imports_point_at_their_stubs() {
    let mut mem = Mem64::new();
    mem.map_zeroed(0x5000, 0x1000).unwrap();
    let mut stubs = HostStubs::new();
    let first = Binding64 { address: 0x5010, symbol: "_malloc".to_string() };
    let second = Binding64 { address: 0x5018, symbol: "_malloc".to_string() };
    let outside = Binding64 { address: 0x9000, symbol: "_free".to_string() };
    bind_import(&mut mem, &mut stubs, &first, &"malloc".to_string()).unwrap();
    bind_import(&mut mem, &mut stubs, &second, &"malloc".to_string()).unwrap();
    let target = mem.read_u64(0x5010).unwrap();
    assert_eq!(mem.read_u64(0x5018), Ok(target));
    assert_eq!(mem.read_u32(target), Ok(0xd400_0001 | (SVC_HOST_BASE << 5)));
    assert!(bind_import(&mut mem, &mut stubs, &outside, &"free".to_string()).is_err());
}

#[test]
fn halt_codes_are_told_apart() {
    assert_eq!(classify_halt(-1), Halt::OutOfTicks);
    assert_eq!(classify_halt(-2), Halt::MemoryFault);
    assert_eq!(classify_halt(-3), Halt::UndefinedInstruction);
    assert_eq!(classify_halt(-4), Halt::Breakpoint);
    assert_eq!(classify_halt(1), Halt::Returned);
    assert_eq!(classify_halt(2), Halt::Returned);
    assert_eq!(classify_halt(0x100), Halt::HostCall(0x100));
    assert_eq!(classify_halt(0x1234), Halt::HostCall(0x1234));
    assert_eq!(classify_halt(0), Halt::UnimplementedSvc(0));
    assert_eq!(classify_halt(0xff), Halt::UnimplementedSvc(0xff));
    assert_eq!(classify_halt(-5), Halt::Failed(-5));
}

#[test]
fn repeated_host_calls_from_one_address_are_a_stall() {
    let mut run = RunState::new(0x4000);
    assert!(!run.record_host_call(0x4000));
    assert_eq!(run.repeated_pc, 1);
    assert!(!run.record_host_call(0x5000));
    assert_eq!(run.repeated_pc, 0);
    assert_eq!(run.last_pc, 0x5000);
    let mut stalled = false;
    for _ in 0..MAX_REPEATED_PC {
        stalled = run.record_host_call(0x5000);
    }
    assert!(!stalled);
    assert!(run.record_host_call(0x5000));
    assert_eq!(run.host_dispatches, MAX_REPEATED_PC + 3);
    assert!(!run.too_many_host_calls());
}

#[test]
fn guest_starts_with_its_arguments_in_registers() {
    let c = initial_context(0x4100, 0x7fff_fff0_0000, 2, 0x10, 0x28, 0x30, 0x9000);
    assert_eq!(c.pc, 0x4100);
    assert_eq!(c.sp, 0x7fff_fff0_0000);
    assert_eq!(c.regs[0..4], [2, 0x10, 0x28, 0x30]);
    assert_eq!(c.regs[30], 0x9000);
    assert!(c.regs[4..30].iter().all(|&r| r == 0));
    let mut back: A64Context = c;
    back.pc = 0x1234;
    return_from_host_call(&mut back);
    assert_eq!(back.pc, 0x9000);
}

#[test]
fn launch_arguments_lead_with_the_executable() {
    let (argv, apple) = touchhle::environment64::launch_arguments("/Apps/Game", &["-x".to_string(), "y".to_string()]);
    assert_eq!(argv, vec!["/Apps/Game".to_string(), "-x".to_string(), "y".to_string()]);
    assert_eq!(apple, vec!["executable_path=/Apps/Game".to_string()]);
}

#[test]
fn a_host_call_dispatches_and_resumes_at_the_link_register() {
    let mut mem = Mem64::new();
    let mut stubs = HostStubs::new();
    stubs.stub_for(&mut mem, &"_malloc".to_string(), &"malloc".to_string()).unwrap();
    let mut regs = [0u64; 31];
    regs[0] = 16;
    regs[30] = 0x1234;
    let mut context = A64Context { regs, sp: 0x8000, pc: 0x5000 };
    let mut state = RunState::new(0x4000);
    let (outcome, name) = host_call_step(&mut mem, &mut context, &mut state, &stubs, SVC_HOST_BASE);
    assert_eq!(outcome, Ok(HostCallOutcome::Resumed(true)));
    assert_eq!(name, "_malloc");
    assert_eq!(context.pc, 0x1234);
    assert_ne!(context.regs[0], 0);
    assert_eq!(mem.allocation_size(context.regs[0]), Some(16));
    assert_eq!(state.host_dispatches, 1);
    assert_eq!(state.last_pc, 0x5000);
    context.pc = 0x5000;
    let before = context.regs;
    let (outcome, name) = host_call_step(&mut mem, &mut context, &mut state, &stubs, SVC_HOST_BASE + 7);
    assert_eq!(outcome, Ok(HostCallOutcome::Resumed(false)));
    assert_eq!(name, "<unknown>");
    assert_eq!(context.regs, before);
    assert_eq!(state.repeated_pc, 1);
}

#[test]
fn a_host_call_ends_the_run_on_a_stall_or_too_many_calls() {
    let mut mem = Mem64::new();
    let stubs = HostStubs::new();
    let mut context = A64Context { regs: [0u64; 31], sp: 0x8000, pc: 0x5000 };
    let mut state = RunState { host_dispatches: MAX_REPEATED_PC, last_pc: 0x5000, repeated_pc: MAX_REPEATED_PC };
    let (outcome, _) = host_call_step(&mut mem, &mut context, &mut state, &stubs, SVC_HOST_BASE);
    assert_eq!(outcome, Ok(HostCallOutcome::Stalled));
    assert_eq!(context.pc, 0x5000);
    let mut state = RunState { host_dispatches: MAX_HOST_DISPATCHES, last_pc: 0, repeated_pc: 0 };
    let (outcome, _) = host_call_step(&mut mem, &mut context, &mut state, &stubs, SVC_HOST_BASE);
    assert_eq!(outcome, Ok(HostCallOutcome::TooManyCalls));
    assert_eq!(context.pc, 0x5000);
}
