use std::ops::Range;
use warp_ninja::masking::{
    basic_block_bytes, function_block_bytes, sorted_basic_blocks, BasicBlock, BlockInstruction,
    ImplicitRegisterExtend, LowLevelILExpression, LowLevelILInstruction, LowLevelILRegister,
};
use warp_ninja::{is_address_relocatable, is_blacklisted_instruction, is_variant_instruction};

fn regions() -> Vec<Range<u64>> {
    vec![0x1000..0x2000, 0x8000..0x8100]
}

fn arch_reg(id: u32) -> LowLevelILRegister {
    LowLevelILRegister::ArchReg(id, ImplicitRegisterExtend::NoExtend)
}

fn instruction(bytes: &[u8], length: Option<usize>, llil: Option<LowLevelILInstruction>) -> BlockInstruction {
    BlockInstruction {
        bytes: bytes.to_vec(),
        length,
        llil,
    }
}

fn set_const(value: u64) -> LowLevelILInstruction {
    LowLevelILInstruction::SetReg(arch_reg(0), LowLevelILExpression::Const(value))
}

#[test]
fn test_address_relocatable_bounds() {
    let regions = regions();
    assert!(is_address_relocatable(&regions, 0x1000));
    assert!(is_address_relocatable(&regions, 0x1fff));
    assert!(!is_address_relocatable(&regions, 0x2000));
    assert!(!is_address_relocatable(&regions, 0x0fff));
    assert!(is_address_relocatable(&regions, 0x80ff));
    assert!(!is_address_relocatable(&[], 0x1000));
}

#[test]
fn test_blacklisted_instructions() {
    assert!(is_blacklisted_instruction(&LowLevelILInstruction::Nop));
    // A move of a register to itself, without extension, does nothing.
    assert!(is_blacklisted_instruction(&LowLevelILInstruction::SetReg(
        arch_reg(3),
        LowLevelILExpression::Reg(arch_reg(3)),
    )));
    // A write that extends into the full register is kept.
    let extending = LowLevelILRegister::ArchReg(3, ImplicitRegisterExtend::ZeroExtendToFullWidth);
    let extending_source =
        LowLevelILRegister::ArchReg(3, ImplicitRegisterExtend::ZeroExtendToFullWidth);
    assert!(!is_blacklisted_instruction(&LowLevelILInstruction::SetReg(
        extending,
        LowLevelILExpression::Reg(extending_source),
    )));
    assert!(!is_blacklisted_instruction(&LowLevelILInstruction::SetReg(
        arch_reg(3),
        LowLevelILExpression::Reg(arch_reg(4)),
    )));
    assert!(!is_blacklisted_instruction(&LowLevelILInstruction::SetReg(
        LowLevelILRegister::Temp(1),
        LowLevelILExpression::Reg(LowLevelILRegister::Temp(1)),
    )));
    assert!(!is_blacklisted_instruction(&set_const(1)));
}

#[test]
fn test_variant_instructions() {
    let regions = regions();
    assert!(is_variant_instruction(&regions, &set_const(0x1800)));
    assert!(!is_variant_instruction(&regions, &set_const(0x2800)));
    assert!(is_variant_instruction(
        &regions,
        &LowLevelILInstruction::SetReg(arch_reg(0), LowLevelILExpression::ExternPtr(0)),
    ));
    assert!(is_variant_instruction(
        &regions,
        &LowLevelILInstruction::SetReg(arch_reg(0), LowLevelILExpression::ConstPtr(0x8000)),
    ));
    // A relocatable constant deep inside an operation makes the instruction variant.
    let nested = LowLevelILInstruction::Other(vec![
        LowLevelILExpression::Reg(arch_reg(1)),
        LowLevelILExpression::Operation(vec![
            LowLevelILExpression::Const(4),
            LowLevelILExpression::Operation(vec![LowLevelILExpression::ConstPtr(0x1004)]),
        ]),
    ]);
    assert!(is_variant_instruction(&regions, &nested));
    let plain = LowLevelILInstruction::Other(vec![LowLevelILExpression::Operation(vec![
        LowLevelILExpression::Const(4),
        LowLevelILExpression::Reg(arch_reg(2)),
    ])]);
    assert!(!is_variant_instruction(&regions, &plain));
    assert!(!is_variant_instruction(&regions, &LowLevelILInstruction::Nop));
}

#[test]
fn test_basic_block_bytes_masks() {
    let regions = regions();
    let instructions = vec![
        // Plain: its bytes, cut to its length.
        instruction(&[0x48, 0x89, 0xe5, 0xff], Some(3), Some(set_const(7))),
        // Variant: masked to zero.
        instruction(&[0xb8, 0x00, 0x10], Some(3), Some(set_const(0x1000))),
        // Blacklisted: left out.
        instruction(&[0x90], Some(1), Some(LowLevelILInstruction::Nop)),
        // Not decoded: left out.
        instruction(&[0x0f, 0x0b], None, Some(set_const(7))),
        // No low level IL: left out.
        instruction(&[0xc3], Some(1), None),
        // Length beyond the bytes read: all of them.
        instruction(&[0x01, 0x02], Some(5), Some(set_const(7))),
    ];
    let bytes = basic_block_bytes(&regions, &instructions);
    assert_eq!(bytes, vec![0x48, 0x89, 0xe5, 0x00, 0x00, 0x00, 0x01, 0x02]);
    assert!(basic_block_bytes(&regions, &[]).is_empty());
}

#[test]
fn test_sorted_basic_blocks_high_to_low() {
    let blocks = vec![
        BasicBlock { start_index: 2, instructions: vec![] },
        BasicBlock { start_index: 9, instructions: vec![] },
        BasicBlock { start_index: 5, instructions: vec![] },
        BasicBlock { start_index: 9, instructions: vec![] },
    ];
    let sorted = sorted_basic_blocks(blocks);
    let starts: Vec<u64> = sorted.iter().map(|b| b.start_index).collect();
    assert_eq!(starts, vec![9, 9, 5, 2]);
    assert!(sorted_basic_blocks(vec![]).is_empty());
}

#[test]
fn test_function_block_bytes_order() {
    let regions = regions();
    let blocks = vec![
        BasicBlock {
            start_index: 1,
            instructions: vec![instruction(&[0xaa], Some(1), Some(set_const(7)))],
        },
        BasicBlock {
            start_index: 4,
            instructions: vec![
                instruction(&[0xbb, 0xcc], Some(2), Some(set_const(0x1001))),
                instruction(&[0xdd], Some(1), Some(set_const(7))),
            ],
        },
    ];
    let bytes = function_block_bytes(&regions, blocks);
    assert_eq!(bytes, vec![vec![0x00, 0x00, 0xdd], vec![0xaa]]);
}
