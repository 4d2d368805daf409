use rlox::chunk::{
    Chunk, ChunkError, MAX_CONSTANTS, OP_ADD, OP_CONSTANT, OP_DIVIDE, OP_MULTIPLY, OP_NEGATE,
    OP_RETURN, OP_SUBTRACT,
};
use rlox::value::Value;
use rlox::vm::{Arith, InterpretResult, Step, STACK_MAX, VM};

fn val(x: f64) -> Value {
    Value { bits: x.to_bits() }
}

fn num(v: Value) -> f64 {
    f64::from_bits(v.bits)
}

fn compute(a: Arith) -> Value {
    match a {
        Arith::Negate(x) => val(-num(x)),
        Arith::Add(x, y) => val(num(x) + num(y)),
        Arith::Subtract(x, y) => val(num(x) - num(y)),
        Arith::Multiply(x, y) => val(num(x) * num(y)),
        Arith::Divide(x, y) => val(num(x) / num(y)),
    }
}

/// Runs a chunk to its end and returns the outcome and the value that
/// `RETURN` handed out.
fn run(vm: &mut VM, chunk: Chunk) -> (InterpretResult, Option<f64>) {
    vm.interpret(chunk);
    loop {
        match vm.step() {
            Step::Next => {}
            Step::Compute(a) => assert!(vm.resume(compute(a))),
            Step::Return(v) => return (InterpretResult::InterpretOk, Some(num(v))),
            Step::Halt(r) => return (r, None),
        }
    }
}

fn push_constant(chunk: &mut Chunk, x: f64, line: u32) {
    let index = chunk.add_constant(val(x)).unwrap();
    chunk.write(OP_CONSTANT, line);
    chunk.write(index, line);
}

#[test]
fn expression_evaluates_left_to_right() {
    let mut chunk = Chunk::new();
    push_constant(&mut chunk, 1.2, 123);
    push_constant(&mut chunk, 3.4, 123);
    chunk.write(OP_ADD, 123);
    push_constant(&mut chunk, 5.6, 123);
    chunk.write(OP_DIVIDE, 123);
    chunk.write(OP_NEGATE, 123);
    chunk.write(OP_RETURN, 123);
    let mut vm = VM::new();
    let (result, printed) = run(&mut vm, chunk);
    assert_eq!(result, InterpretResult::InterpretOk);
    assert_eq!(printed, Some(-0.8214285714285714));
    assert_eq!(format!("{}", printed.unwrap()), "-0.8214285714285714");
}

#[test]
fn add_two_constants_prints_sum() {
    let mut chunk = Chunk::new();
    push_constant(&mut chunk, 1.2, 1);
    push_constant(&mut chunk, 3.4, 1);
    chunk.write(OP_ADD, 1);
    chunk.write(OP_RETURN, 1);
    let mut vm = VM::new();
    let (result, printed) = run(&mut vm, chunk);
    assert_eq!(result, InterpretResult::InterpretOk);
    assert_eq!(format!("{}\n", printed.unwrap()), "4.6\n");
}

#[test]
fn operands_keep_their_order() {
    let mut chunk = Chunk::new();
    push_constant(&mut chunk, 10.0, 1);
    push_constant(&mut chunk, 4.0, 1);
    chunk.write(OP_SUBTRACT, 1);
    push_constant(&mut chunk, 3.0, 1);
    chunk.write(OP_MULTIPLY, 1);
    chunk.write(OP_RETURN, 1);
    let mut vm = VM::new();
    assert_eq!(run(&mut vm, chunk), (InterpretResult::InterpretOk, Some(18.0)));
}

#[test]
fn compute_step_hands_out_left_operand_first() {
    let mut chunk = Chunk::new();
    push_constant(&mut chunk, 8.0, 1);
    push_constant(&mut chunk, 2.0, 1);
    chunk.write(OP_DIVIDE, 1);
    let mut vm = VM::new();
    vm.interpret(chunk);
    assert_eq!(vm.step(), Step::Next);
    assert_eq!(vm.step(), Step::Next);
    assert_eq!(vm.stack().len(), 2);
    assert_eq!(vm.step(), Step::Compute(Arith::Divide(val(8.0), val(2.0))));
    assert_eq!(vm.stack().len(), 0);
    assert_eq!(vm.ip(), 5);
}

#[test]
fn division_by_zero_is_infinite_not_an_error() {
    let mut chunk = Chunk::new();
    push_constant(&mut chunk, 1.0, 1);
    push_constant(&mut chunk, 0.0, 1);
    chunk.write(OP_DIVIDE, 1);
    chunk.write(OP_RETURN, 1);
    let mut vm = VM::new();
    assert_eq!(run(&mut vm, chunk), (InterpretResult::InterpretOk, Some(f64::INFINITY)));
}

#[test]
fn return_pops_exactly_one() {
    let mut chunk = Chunk::new();
    push_constant(&mut chunk, 1.0, 1);
    push_constant(&mut chunk, 2.0, 1);
    push_constant(&mut chunk, 3.0, 1);
    chunk.write(OP_RETURN, 1);
    let mut vm = VM::new();
    vm.interpret(chunk);
    for _ in 0..3 {
        assert_eq!(vm.step(), Step::Next);
    }
    assert_eq!(vm.stack().len(), 3);
    let step = vm.step();
    assert_eq!(step, Step::Return(val(3.0)));
    assert_eq!(step.outcome(), Some(InterpretResult::InterpretOk));
    assert_eq!(vm.stack().len(), 2);
    assert_eq!(vm.stack()[1], val(2.0));
}

#[test]
fn unknown_opcode_is_a_compile_error_anywhere() {
    for position in 0..3usize {
        let mut chunk = Chunk::new();
        for _ in 0..position {
            push_constant(&mut chunk, 1.0, 1);
        }
        chunk.write(200, 1);
        chunk.write(OP_RETURN, 1);
        let mut vm = VM::new();
        assert_eq!(run(&mut vm, chunk), (InterpretResult::InterpretCompileError, None));
    }
    for byte in [0u8, 8, 255] {
        let mut chunk = Chunk::new();
        chunk.write(byte, 1);
        let mut vm = VM::new();
        vm.interpret(chunk);
        let step = vm.step();
        assert_eq!(step, Step::Halt(InterpretResult::InterpretCompileError));
        assert_eq!(step.outcome(), Some(InterpretResult::InterpretCompileError));
    }
}

#[test]
fn underflow_is_a_runtime_error() {
    for op in [OP_RETURN, OP_NEGATE, OP_ADD] {
        let mut chunk = Chunk::new();
        chunk.write(op, 1);
        let mut vm = VM::new();
        assert_eq!(run(&mut vm, chunk), (InterpretResult::InterpretRuntimeError, None));
    }
    let mut chunk = Chunk::new();
    push_constant(&mut chunk, 1.0, 1);
    chunk.write(OP_MULTIPLY, 1);
    let mut vm = VM::new();
    assert_eq!(run(&mut vm, chunk), (InterpretResult::InterpretRuntimeError, None));
}

#[test]
fn overflow_is_a_runtime_error() {
    let mut chunk = Chunk::new();
    let index = chunk.add_constant(val(1.0)).unwrap();
    for _ in 0..STACK_MAX + 1 {
        chunk.write(OP_CONSTANT, 1);
        chunk.write(index, 1);
    }
    let mut vm = VM::new();
    vm.interpret(chunk);
    for _ in 0..STACK_MAX {
        assert_eq!(vm.step(), Step::Next);
    }
    assert_eq!(vm.stack().len(), STACK_MAX);
    assert_eq!(vm.step(), Step::Halt(InterpretResult::InterpretRuntimeError));
    assert!(!vm.resume(val(2.0)));
    assert_eq!(vm.stack().len(), STACK_MAX);
}

#[test]
fn running_off_the_end_is_a_runtime_error() {
    let mut chunk = Chunk::new();
    push_constant(&mut chunk, 1.0, 1);
    let mut vm = VM::new();
    assert_eq!(run(&mut vm, chunk), (InterpretResult::InterpretRuntimeError, None));
    let mut vm = VM::new();
    assert_eq!(run(&mut vm, Chunk::new()), (InterpretResult::InterpretRuntimeError, None));
}

#[test]
fn bad_constant_operand_is_a_runtime_error() {
    let mut chunk = Chunk::new();
    chunk.write(OP_CONSTANT, 1);
    chunk.write(0, 1);
    let mut vm = VM::new();
    assert_eq!(run(&mut vm, chunk), (InterpretResult::InterpretRuntimeError, None));
    let mut chunk = Chunk::new();
    chunk.add_constant(val(1.0)).unwrap();
    chunk.write(OP_CONSTANT, 1);
    let mut vm = VM::new();
    assert_eq!(run(&mut vm, chunk), (InterpretResult::InterpretRuntimeError, None));
}

#[test]
fn interpret_resets_the_machine() {
    let mut vm = VM::new();
    let mut chunk = Chunk::new();
    push_constant(&mut chunk, 1.0, 1);
    push_constant(&mut chunk, 2.0, 1);
    chunk.write(OP_RETURN, 1);
    assert_eq!(run(&mut vm, chunk), (InterpretResult::InterpretOk, Some(2.0)));
    assert_eq!(vm.stack().len(), 1);
    let mut chunk = Chunk::new();
    chunk.write(OP_RETURN, 1);
    vm.interpret(chunk);
    assert_eq!(vm.stack().len(), 0);
    assert_eq!(vm.ip(), 0);
    assert_eq!(vm.chunk().count(), 1);
    assert_eq!(vm.step(), Step::Halt(InterpretResult::InterpretRuntimeError));
}

#[test]
fn add_constant_numbers_in_order() {
    let mut chunk = Chunk::new();
    for k in 0..10u32 {
        assert_eq!(chunk.add_constant(val(k as f64 + 0.5)), Ok(k as u8));
    }
    for k in 0..10usize {
        assert_eq!(chunk.read_constant(k), val(k as f64 + 0.5));
    }
    assert_eq!(chunk.constant_count(), 10);
    assert_eq!(chunk.count(), 0);
}

#[test]
fn constant_pool_is_full_at_its_limit() {
    let mut chunk = Chunk::new();
    for k in 0..MAX_CONSTANTS {
        assert_eq!(chunk.add_constant(val(k as f64)), Ok(k as u8));
    }
    assert_eq!(chunk.add_constant(val(-1.0)), Err(ChunkError::TooManyConstants));
    assert_eq!(chunk.constant_count(), MAX_CONSTANTS);
    assert_eq!(chunk.read_constant(0), val(0.0));
    assert_eq!(chunk.read_constant(254), val(254.0));
}

#[test]
fn write_keeps_code_and_lines_in_step() {
    let mut chunk = Chunk::new();
    chunk.write(OP_NEGATE, 7);
    chunk.write(OP_RETURN, 9);
    assert_eq!(chunk.count(), 2);
    assert_eq!(chunk.read_byte(0), OP_NEGATE);
    assert_eq!(chunk.read_byte(1), OP_RETURN);
    assert_eq!(chunk.read_line(0), 7);
    assert_eq!(chunk.read_line(1), 9);
}
