use stackvm::assembler::Assembler;
use stackvm::vm::{RtError, VirtualMachine, VmRun, VmStatus};

fn assemble(source: &str) -> Vec<u8> {
    Assembler::new(source.to_string()).assemble().expect("assembly failed")
}

fn run_to_end(bytes: Vec<u8>) -> (VmRun, Vec<u32>) {
    let mut vm = VirtualMachine::new(bytes);
    let outcome = vm.run(100_000);
    (outcome, vm.output)
}

#[test]
fn test_vm_new() {
    let mut vm = VirtualMachine::new(vec![0xFF, 0xFF]);
    assert!(vm.program.next_byte() == 0xFF);
}

#[test]
fn test_fetch_instruction() {
    let mut vm = VirtualMachine::new(vec![0x10, 0xFF, 0xFF, 0xFF, 0xFF]);
    let inst = vm.fetch_instruction().unwrap();
    assert!(inst.code == 0x10);
    assert!(inst.value.unwrap() == 0xFFFFFFFF);
}

#[test]
fn test_swap_instruction() {
    let mut vm = VirtualMachine::new(vec![]);
    vm.stack.push(0x01);
    vm.stack.push(0x02);
    vm.swap();

    assert!(vm.stack.pop() == 1);
    assert!(vm.stack.pop() == 2);
}

#[test]
fn scenario_add_prints_twelve() {
    let img = assemble("@code\n._entry:\nconst 5\nconst 7\nadd\nprint\nhalt\n");
    let (outcome, output) = run_to_end(img);
    assert_eq!(outcome, VmRun::Halted);
    assert_eq!(output, vec![12]);
}

#[test]
fn scenario_data_load_prints_twelve() {
    let img = assemble("@data\n.x:\n3\n@code\n._entry:\ng_load .x\nconst 4\nmul\nprint\nhalt\n");
    let (outcome, output) = run_to_end(img);
    assert_eq!(outcome, VmRun::Halted);
    assert_eq!(output, vec![12]);
}

#[test]
fn scenario_cmp_eq_prints_one() {
    let img = assemble("@code\n._entry:\nconst 1\nconst 1\ncmp_eq\nprint\nhalt\n");
    let (outcome, output) = run_to_end(img);
    assert_eq!(outcome, VmRun::Halted);
    assert_eq!(output, vec![1]);
}

#[test]
fn scenario_dup_mul_prints_four() {
    let img = assemble("@code\n._entry:\nconst 2\ndup\nmul\nprint\nhalt\n");
    let (outcome, output) = run_to_end(img);
    assert_eq!(outcome, VmRun::Halted);
    assert_eq!(output, vec![4]);
}

#[test]
fn scenario_call_prints_nine_then_halts() {
    let img = assemble("@code\n._entry:\ncall .f\nhalt\n.f:\nconst 9\nprint\nret\n");
    let (outcome, output) = run_to_end(img);
    assert_eq!(outcome, VmRun::Halted);
    assert_eq!(output, vec![9]);
}

#[test]
fn sub_saturates_at_zero() {
    let img = assemble("@code\n._entry:\nconst 3\nconst 5\nsub\nprint\nhalt\n");
    let (outcome, output) = run_to_end(img);
    assert_eq!(outcome, VmRun::Halted);
    assert_eq!(output, vec![0]);
}

#[test]
fn sub_takes_lower_minus_upper() {
    let img = assemble("@code\n._entry:\nconst 9\nconst 5\nsub\nprint\nhalt\n");
    let (outcome, output) = run_to_end(img);
    assert_eq!(outcome, VmRun::Halted);
    assert_eq!(output, vec![4]);
}

#[test]
fn div_divides_lower_by_upper() {
    let img = assemble("@code\n._entry:\nconst 7\nconst 2\ndiv\nprint\nhalt\n");
    let (outcome, output) = run_to_end(img);
    assert_eq!(outcome, VmRun::Halted);
    assert_eq!(output, vec![3]);
}

#[test]
fn modulo_takes_upper_mod_lower() {
    let img = assemble("@code\n._entry:\nconst 3\nconst 7\nmod\nprint\nhalt\n");
    let (outcome, output) = run_to_end(img);
    assert_eq!(outcome, VmRun::Halted);
    assert_eq!(output, vec![1]);
}

#[test]
fn pow_raises_upper_to_lower() {
    let img = assemble("@code\n._entry:\nconst 2\nconst 3\npow\nprint\nhalt\n");
    let (outcome, output) = run_to_end(img);
    assert_eq!(outcome, VmRun::Halted);
    assert_eq!(output, vec![9]);
}

#[test]
fn add_wraps_on_overflow() {
    let img = assemble("@code\n._entry:\nconst -1\nconst 2\nadd\nprint\nhalt\n");
    let (outcome, output) = run_to_end(img);
    assert_eq!(outcome, VmRun::Halted);
    assert_eq!(output, vec![1]);
}

#[test]
fn store_and_load_local() {
    let img = assemble("@code\n._entry:\nconst 31\nstore 2\nload 2\nprint\nhalt\n");
    let (outcome, output) = run_to_end(img);
    assert_eq!(outcome, VmRun::Halted);
    assert_eq!(output, vec![31]);
}

#[test]
fn store_and_load_global() {
    let img = assemble("@code\n._entry:\nconst 55\ng_store 100\ng_load 100\nprint\nhalt\n");
    let (outcome, output) = run_to_end(img);
    assert_eq!(outcome, VmRun::Halted);
    assert_eq!(output, vec![55]);
}

#[test]
fn jmp_nz_skips_when_zero() {
    // const 0; jmp_nz 17; const 5; print; halt; const 6; print; halt.
    // The popped word is zero, so the jump is not taken and 5 comes out.
    let img = vec![
        0x10, 0x00, 0x00, 0x00, 0x00, 0x89, 0x00, 0x00, 0x00, 0x11, 0x10, 0x00, 0x00, 0x00, 0x05,
        0xE0, 0xF0, 0x10, 0x00, 0x00, 0x00, 0x06, 0xE0, 0xF0,
    ];
    let (outcome, output) = run_to_end(img);
    assert_eq!(outcome, VmRun::Halted);
    assert_eq!(output, vec![5]);
}

#[test]
fn jmp_nz_jumps_when_nonzero() {
    let img = vec![
        0x10, 0x00, 0x00, 0x00, 0x01, 0x89, 0x00, 0x00, 0x00, 0x11, 0x10, 0x00, 0x00, 0x00, 0x05,
        0xE0, 0xF0, 0x10, 0x00, 0x00, 0x00, 0x06, 0xE0, 0xF0,
    ];
    let (outcome, output) = run_to_end(img);
    assert_eq!(outcome, VmRun::Halted);
    assert_eq!(output, vec![6]);
}

#[test]
fn empty_image_fails_out_of_range() {
    let (outcome, output) = run_to_end(vec![]);
    assert_eq!(outcome, VmRun::Failed(RtError::PcOutOfRange));
    assert!(output.is_empty());
}

#[test]
fn unknown_opcode_fails() {
    let (outcome, _) = run_to_end(vec![0x01]);
    assert_eq!(outcome, VmRun::Failed(RtError::UnknownOpcode(0x01)));
}

#[test]
fn add_underflows_on_empty_stack() {
    let (outcome, _) = run_to_end(vec![0x40]);
    assert_eq!(outcome, VmRun::Failed(RtError::StackUnderflow));
}

#[test]
fn division_by_zero_fails() {
    let img = assemble("@code\n._entry:\nconst 1\nconst 0\ndiv\nhalt\n");
    let (outcome, _) = run_to_end(img);
    assert_eq!(outcome, VmRun::Failed(RtError::DivideByZero));
}

#[test]
fn ret_without_frame_fails() {
    let (outcome, _) = run_to_end(vec![0xA0]);
    assert_eq!(outcome, VmRun::Failed(RtError::EmptyCallStack));
}

#[test]
fn undefined_local_fails() {
    let img = assemble("@code\n._entry:\nload 0\nhalt\n");
    let (outcome, _) = run_to_end(img);
    assert_eq!(outcome, VmRun::Failed(RtError::UndefinedLocal(0)));
}

#[test]
fn global_memory_out_of_range_fails() {
    let img = assemble("@code\n._entry:\nconst 1\ng_store 65535\nhalt\n");
    let (outcome, _) = run_to_end(img);
    assert_eq!(outcome, VmRun::Failed(RtError::MemoryOutOfRange(65535)));
}

#[test]
fn out_of_steps_on_endless_loop() {
    // jmp back to itself forever.
    let img = assemble("@code\n._entry:\njmp ._entry\n");
    let mut vm = VirtualMachine::new(img);
    assert_eq!(vm.run(10), VmRun::OutOfSteps);
}

#[test]
fn step_reports_halt() {
    let mut vm = VirtualMachine::new(vec![0xF0]);
    assert_eq!(vm.step(), VmStatus::Halted);
}

#[test]
fn trace_line_renders_hex() {
    let inst = stackvm::instruction::Instruction::new(0x10, Some(5));
    let mut stack = stackvm::stack::Stack::new();
    stack.push(1);
    stack.push(2);
    let line = inst.trace(0x1B, &stack);
    assert_eq!(line, b"0000001B: 10 00000005 | 00000001 00000002".to_vec());
}

#[test]
fn trace_line_without_operand() {
    let inst = stackvm::instruction::Instruction::new(0x40, None);
    let stack = stackvm::stack::Stack::new();
    let line = inst.trace(0, &stack);
    assert_eq!(line, b"00000000: 40 |".to_vec());
}

#[test]
fn memory_publishes_image_words() {
    // The data word 3 sits at image offset 6; memory slot 6 holds it.
    let img = assemble("@data\n.x:\n3\n@code\n._entry:\nhalt\n");
    let vm = VirtualMachine::new(img);
    assert_eq!(vm.mem[6], 3);
    assert_eq!(vm.mem.len(), 0xFFFF);
}
