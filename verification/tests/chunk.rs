use lox_bvm::chunk::{disassemble_instruction, Chunk, Disassembly, Instruction, Operand};
use lox_bvm::collections::dynarray::{free_array, grow_array, grow_capacity, reallocate, DynArray};
use lox_bvm::collections::stack::{show_stack, Stack, STACK_MAX};
use lox_bvm::opcode::OpCode;
use lox_bvm::value::{Value, Values};

#[test]
fn appends_are_counted_and_kept_in_place() {
    let mut array: DynArray<u32> = DynArray::default();
    assert_eq!(array.count(), 0);
    assert_eq!(array.capacity(), 0);
    for n in 0..1000u32 {
        array.write(n * 3);
        assert_eq!(array.count(), n as usize + 1);
        assert!(array.capacity() >= array.count());
        assert!(array.capacity() % 8 == 0 && (array.capacity() / 8).is_power_of_two());
        for i in 0..=n {
            assert_eq!(*array.get_at(i as usize), i * 3);
        }
    }
    assert_eq!(array.capacity(), 1024);
}

#[test]
fn capacity_doubles_from_eight() {
    let mut array: DynArray<u8> = DynArray::default();
    let mut seen = Vec::new();
    for n in 0..40u8 {
        array.write(n);
        seen.push(array.capacity());
    }
    for (n, capacity) in seen.iter().enumerate() {
        let expected = if n < 8 {
            8
        } else if n < 16 {
            16
        } else if n < 32 {
            32
        } else {
            64
        };
        assert_eq!(*capacity, expected);
    }
}

#[test]
fn grow_capacity_is_twice_and_at_least_eight() {
    assert_eq!(grow_capacity(0), 8);
    assert_eq!(grow_capacity(1), 8);
    assert_eq!(grow_capacity(3), 8);
    assert_eq!(grow_capacity(4), 8);
    assert_eq!(grow_capacity(8), 16);
    assert_eq!(grow_capacity(16), 32);
    assert_eq!(grow_capacity(1000), 2000);
}

#[test]
fn free_resets_the_buffer() {
    let mut array: DynArray<u8> = DynArray::default();
    for n in 0..20 {
        array.write(n);
    }
    array.free();
    assert_eq!(array.count(), 0);
    assert_eq!(array.capacity(), 0);
    array.write(9);
    assert_eq!(array.count(), 1);
    assert_eq!(array.capacity(), 8);
    assert_eq!(*array.get_at(0), 9);
}

#[test]
fn reallocation_resizes_and_keeps_what_fits() {
    let mut storage = vec![1u8, 2, 3];
    reallocate(&mut storage, 3, 16);
    assert_eq!(storage.len(), 16);
    assert_eq!(&storage[..3], &[1, 2, 3]);
    grow_array(&mut storage, 16, 64);
    assert_eq!(storage.len(), 64);
    assert_eq!(&storage[..3], &[1, 2, 3]);
    reallocate(&mut storage, 64, 2);
    assert_eq!(storage, vec![1, 2]);
    reallocate(&mut storage, 2, 0);
    assert!(storage.is_empty());
    assert_eq!(storage.capacity(), 0);
    let mut other = vec![4u8, 5];
    free_array(&mut other, 2);
    assert!(other.is_empty());
}

#[test]
fn growing_keeps_the_items_of_a_full_buffer() {
    let mut array: DynArray<u64> = DynArray::default();
    for n in 0..8 {
        array.write(n + 100);
    }
    assert_eq!(array.capacity(), 8);
    array.write(108);
    assert_eq!(array.capacity(), 16);
    assert_eq!(array.count(), 9);
    for n in 0..9 {
        assert_eq!(*array.get_at(n), n as u64 + 100);
    }
}

#[test]
fn stack_is_last_in_first_out() {
    let mut stack: Stack<u32> = Stack::default();
    assert_eq!(stack.len(), 0);
    stack.push(1);
    stack.push(2);
    stack.push(3);
    assert_eq!(stack.len(), 3);
    assert_eq!(show_stack(&stack), vec![1, 2, 3]);
    assert_eq!(stack.pop(), 3);
    assert_eq!(stack.pop(), 2);
    stack.push(4);
    assert_eq!(show_stack(&stack), vec![1, 4]);
    assert_eq!(stack.pop(), 4);
    assert_eq!(stack.pop(), 1);
    assert_eq!(stack.len(), 0);
    assert_eq!(show_stack(&stack), Vec::<u32>::new());
}

#[test]
fn stack_takes_stack_max_values() {
    assert_eq!(STACK_MAX, 256);
    let mut stack: Stack<usize> = Stack::default();
    for n in 0..STACK_MAX {
        stack.push(n);
    }
    assert_eq!(stack.len(), 256);
    for n in (0..STACK_MAX).rev() {
        assert_eq!(stack.pop(), n);
    }
}

#[test]
fn values_are_found_by_index() {
    let mut values = Values::default();
    assert_eq!(values.count(), 0);
    values.write(Value::from_bits(11));
    values.write(Value::from_bits(22));
    assert_eq!(values.count(), 2);
    assert_eq!(values.get_at(0), Value::from_bits(11));
    assert_eq!(values.get_at(1), Value::from_bits(22));
    values.free();
    assert_eq!(values.count(), 0);
}

#[test]
fn every_byte_is_written_with_its_line() {
    let mut chunk = Chunk::default();
    let entries: Vec<(u8, usize)> = (0..300usize).map(|i| ((i % 7) as u8, i / 3 + 1)).collect();
    for (n, (byte, line)) in entries.iter().enumerate() {
        chunk.write(*byte, *line);
        assert_eq!(chunk.count(), n + 1);
        for (i, (b, l)) in entries[..=n].iter().enumerate() {
            assert_eq!(chunk.byte_at(i), *b);
            assert_eq!(chunk.line_at(i), *l);
        }
    }
}

#[test]
fn constants_do_not_touch_code_or_lines() {
    let mut chunk = Chunk::default();
    chunk.write(6, 9);
    assert_eq!(chunk.add_constant(Value::from_bits(5)), 0);
    assert_eq!(chunk.add_constant(Value::from_bits(6)), 1);
    assert_eq!(chunk.add_constant(Value::from_bits(5)), 2);
    assert_eq!(chunk.constants_count(), 3);
    assert_eq!(chunk.constant_at(1), Value::from_bits(6));
    assert_eq!(chunk.count(), 1);
    assert_eq!(chunk.byte_at(0), 6);
    assert_eq!(chunk.line_at(0), 9);
}

#[test]
fn the_pool_may_grow_past_what_an_operand_can_name() {
    let mut chunk = Chunk::default();
    for n in 0..300u64 {
        assert_eq!(chunk.add_constant(Value::from_bits(n)), n as usize);
    }
    assert_eq!(chunk.constants_count(), 300);
    assert_eq!(chunk.constant_at(299), Value::from_bits(299));
}

#[test]
fn free_empties_the_chunk() {
    let mut chunk = Chunk::default();
    chunk.write(0, 1);
    chunk.write(0, 1);
    chunk.add_constant(Value::from_bits(1));
    chunk.free();
    assert_eq!(chunk.count(), 0);
    assert_eq!(chunk.constants_count(), 0);
    assert_eq!(
        chunk.disassemble("empty"),
        Disassembly { name: String::from("empty"), instructions: vec![] }
    );
}

fn sample() -> Chunk {
    let mut chunk = Chunk::default();
    chunk.add_constant(Value::from_bits(100));
    chunk.add_constant(Value::from_bits(200));
    for (byte, line) in [(0, 123), (1, 123), (5, 123), (0, 124), (0, 124), (1, 125), (9, 125), (6, 125)] {
        chunk.write(byte, line);
    }
    chunk
}

#[test]
fn disassembly_lists_each_instruction_once() {
    let expected = vec![
        Instruction {
            offset: 0,
            line: Some(123),
            byte: 0,
            opcode: OpCode::Constant,
            operand: Operand::Constant { index: 1, value: Value::from_bits(200) },
        },
        Instruction {
            offset: 2,
            line: None,
            byte: 5,
            opcode: OpCode::Negate,
            operand: Operand::Absent,
        },
        Instruction {
            offset: 3,
            line: Some(124),
            byte: 0,
            opcode: OpCode::Constant,
            operand: Operand::Constant { index: 0, value: Value::from_bits(100) },
        },
        Instruction {
            offset: 5,
            line: Some(125),
            byte: 1,
            opcode: OpCode::Add,
            operand: Operand::Absent,
        },
        Instruction {
            offset: 6,
            line: None,
            byte: 9,
            opcode: OpCode::Unknown,
            operand: Operand::Absent,
        },
        Instruction {
            offset: 7,
            line: None,
            byte: 6,
            opcode: OpCode::Return,
            operand: Operand::Absent,
        },
    ];
    let listing = sample().disassemble("test chunk");
    assert_eq!(listing.name, "test chunk");
    assert_eq!(listing.instructions, expected);
}

#[test]
fn disassembling_twice_gives_the_same_listing() {
    let chunk = sample();
    let first = chunk.disassemble("twice");
    let second = chunk.disassemble("twice");
    assert_eq!(first, second);
    assert_eq!(sample().disassemble("twice"), first);
}

#[test]
fn disassemble_instruction_returns_the_next_offset() {
    let chunk = sample();
    assert_eq!(disassemble_instruction(&chunk, 0).1, 2);
    assert_eq!(disassemble_instruction(&chunk, 2).1, 3);
    assert_eq!(disassemble_instruction(&chunk, 3).1, 5);
    assert_eq!(disassemble_instruction(&chunk, 6).1, 7);
    assert_eq!(disassemble_instruction(&chunk, 7).1, 8);
}

#[test]
fn disassembly_of_a_constant_without_operand() {
    let mut chunk = Chunk::default();
    chunk.write(6, 1);
    chunk.write(0, 1);
    let (instruction, next) = disassemble_instruction(&chunk, 1);
    assert_eq!(instruction.opcode, OpCode::Constant);
    assert_eq!(instruction.operand, Operand::Missing);
    assert_eq!(instruction.line, None);
    assert_eq!(next, 2);
    assert_eq!(chunk.disassemble("short").instructions.len(), 2);
}

#[test]
fn disassembly_of_a_constant_outside_the_pool() {
    let mut chunk = Chunk::default();
    chunk.write(0, 1);
    chunk.write(3, 2);
    let (instruction, next) = disassemble_instruction(&chunk, 0);
    assert_eq!(instruction.operand, Operand::Dangling { index: 3 });
    assert_eq!(instruction.line, Some(1));
    assert_eq!(next, 2);
}

#[test]
fn opcodes_are_decoded_from_bytes() {
    let expected = [
        OpCode::Constant,
        OpCode::Add,
        OpCode::Subtract,
        OpCode::Multiply,
        OpCode::Divide,
        OpCode::Negate,
        OpCode::Return,
    ];
    for (byte, opcode) in expected.iter().enumerate() {
        assert_eq!(OpCode::from(byte as u8), *opcode);
    }
    for byte in 7..=255u8 {
        assert_eq!(OpCode::from(byte), OpCode::Unknown);
    }
}

#[test]
fn opcodes_have_mnemonics() {
    assert_eq!(OpCode::Constant.to_string(), "OP_CONSTANT");
    assert_eq!(OpCode::Add.to_string(), "OP_ADD");
    assert_eq!(OpCode::Subtract.to_string(), "OP_SUBTRACT");
    assert_eq!(OpCode::Multiply.to_string(), "OP_MULTIPLY");
    assert_eq!(OpCode::Divide.to_string(), "OP_DIVIDE");
    assert_eq!(OpCode::Negate.to_string(), "OP_NEGATE");
    assert_eq!(OpCode::Return.to_string(), "OP_RETURN");
    assert_eq!(OpCode::Unknown.to_string(), "OP_UNKNOWN");
}
