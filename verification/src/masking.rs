//! Which instructions of a basic block go into its GUID, and which of their bytes are masked:
//! the low level IL that the decision reads, and the byte sequence that results.
use std::ops::Range;
use vstd::prelude::*;

verus! {

/// Whether `address` lies in one of the half-open ranges `start..end`.
pub open spec fn spec_address_relocatable(regions: Seq<Range<u64>>, address: u64) -> bool {
    exists|i: int| 0 <= i < regions.len() && regions[i].start <= address && address < regions[i].end
}

/// If the address is inside any of the given ranges we will assume the address to be relocatable.
pub fn is_address_relocatable(relocatable_regions: &[Range<u64>], address: u64) -> (r: bool)
    ensures
        r == spec_address_relocatable(relocatable_regions@, address),
{
    let mut i: usize = 0;
    while i < relocatable_regions.len()
        invariant
            i <= relocatable_regions@.len(),
            forall|j: int|
                0 <= j < i ==> !(relocatable_regions@[j].start <= address && address
                    < relocatable_regions@[j].end),
        decreases relocatable_regions@.len() - i,
    {
        let range = &relocatable_regions[i];
        if range.start <= address && address < range.end {
            return true;
        }
        i = i + 1;
    }
    false
}

/// How writing a register extends into the rest of its full-width register.
#[derive(Debug, PartialEq, Eq, Hash, Structural)]
pub enum ImplicitRegisterExtend {
    NoExtend,
    ZeroExtendToFullWidth,
    SignExtendToFullWidth,
}

/// A register of the low level IL: an architecture register, by id, with its implicit extension,
/// or a temporary register, by index.
#[derive(Debug, PartialEq, Eq, Hash, Structural)]
pub enum LowLevelILRegister {
    ArchReg(u32, ImplicitRegisterExtend),
    Temp(u32),
}

/// The two registers are the same register.
pub open spec fn same_register(a: LowLevelILRegister, b: LowLevelILRegister) -> bool {
    match (a, b) {
        (LowLevelILRegister::ArchReg(x, _), LowLevelILRegister::ArchReg(y, _)) => x == y,
        (LowLevelILRegister::Temp(x), LowLevelILRegister::Temp(y)) => x == y,
        _ => false,
    }
}

fn is_same_register(a: &LowLevelILRegister, b: &LowLevelILRegister) -> (r: bool)
    ensures
        r == same_register(*a, *b),
{
    match (a, b) {
        (LowLevelILRegister::ArchReg(x, _), LowLevelILRegister::ArchReg(y, _)) => *x == *y,
        (LowLevelILRegister::Temp(x), LowLevelILRegister::Temp(y)) => *x == *y,
        _ => false,
    }
}

/// An expression of the low level IL, with the expressions it is built from.
#[derive(Debug, PartialEq, Eq)]
pub enum LowLevelILExpression {
    /// A constant value.
    Const(u64),
    /// A constant pointer.
    ConstPtr(u64),
    /// A pointer to an external symbol, with its value.
    ExternPtr(u64),
    /// The value of a register.
    Reg(LowLevelILRegister),
    /// Any other operation, with its operand expressions.
    Operation(Vec<LowLevelILExpression>),
}

/// An instruction of the low level IL.
#[derive(Debug, PartialEq, Eq)]
pub enum LowLevelILInstruction {
    /// No operation.
    Nop,
    /// Set the destination register to the value of the source expression.
    SetReg(LowLevelILRegister, LowLevelILExpression),
    /// Any other instruction, with its operand expressions.
    Other(Vec<LowLevelILExpression>),
}

/// Is the instruction not included in the masked byte sequence? A no-op, or a move of a register
/// onto itself where the register is an architecture register that writing does not extend.
pub open spec fn spec_blacklisted(instr: LowLevelILInstruction) -> bool {
    match instr {
        LowLevelILInstruction::Nop => true,
        LowLevelILInstruction::SetReg(dest, LowLevelILExpression::Reg(source)) => {
            same_register(dest, source) && dest matches LowLevelILRegister::ArchReg(
                _,
                ImplicitRegisterExtend::NoExtend,
            )
        },
        _ => false,
    }
}

/// Is the instruction not included in the masked byte sequence?
///
/// Blacklisted instructions will make an otherwise identical function GUID fail to match.
///
/// Example: NOPs and useless moves are blacklisted to allow for hot-patchable functions.
pub fn is_blacklisted_instruction(instr: &LowLevelILInstruction) -> (r: bool)
    ensures
        r == spec_blacklisted(*instr),
{
    match instr {
        LowLevelILInstruction::Nop => true,
        LowLevelILInstruction::SetReg(dest, source) => {
            match source {
                LowLevelILExpression::Reg(source_reg) => {
                    if is_same_register(dest, source_reg) {
                        match dest {
                            // If this register has no implicit extend then we can safely assume
                            // it's a NOP. Ex. on x86_64 we don't want to remove `mov edi, edi` as it
                            // will zero the upper 32 bits.
                            LowLevelILRegister::ArchReg(_, extend) => match extend {
                                ImplicitRegisterExtend::NoExtend => true,
                                _ => false,
                            },
                            LowLevelILRegister::Temp(_) => false,
                        }
                    } else {
                        false
                    }
                },
                _ => false,
            }
        },
        _ => false,
    }
}

/// The expression itself makes the instruction variant: a relocatable constant pointer, a
/// relocatable constant, or an external pointer.
pub open spec fn variant_node(regions: Seq<Range<u64>>, e: LowLevelILExpression) -> bool {
    match e {
        LowLevelILExpression::ConstPtr(v) => spec_address_relocatable(regions, v),
        LowLevelILExpression::Const(v) => spec_address_relocatable(regions, v),
        LowLevelILExpression::ExternPtr(_) => true,
        _ => false,
    }
}

/// Some expression in the tree of `e` is variant.
pub open spec fn variant_tree(regions: Seq<Range<u64>>, e: LowLevelILExpression) -> bool
    decreases e,
{
    variant_node(regions, e) || match e {
        LowLevelILExpression::Operation(operands) => variant_trees(regions, operands@),
        _ => false,
    }
}

/// Some expression in the trees of `es` is variant.
pub open spec fn variant_trees(regions: Seq<Range<u64>>, es: Seq<LowLevelILExpression>) -> bool
    decreases es,
{
    if es.len() == 0 {
        false
    } else {
        variant_trees(regions, es.drop_last()) || variant_tree(regions, es.last())
    }
}

/// The operand expressions of the instruction.
pub open spec fn instruction_operands(instr: LowLevelILInstruction) -> Seq<LowLevelILExpression> {
    match instr {
        LowLevelILInstruction::Nop => Seq::empty(),
        LowLevelILInstruction::SetReg(_, source) => seq![source],
        LowLevelILInstruction::Other(operands) => operands@,
    }
}

/// The instruction is variant: some expression in its tree is.
pub open spec fn spec_variant(regions: Seq<Range<u64>>, instr: LowLevelILInstruction) -> bool {
    variant_trees(regions, instruction_operands(instr))
}

/// An instruction that sets a register is variant exactly when its source expression is.
proof fn lemma_set_register_operand(
    regions: Seq<Range<u64>>,
    dest: LowLevelILRegister,
    e: LowLevelILExpression,
)
    ensures
        spec_variant(regions, LowLevelILInstruction::SetReg(dest, e)) == variant_tree(regions, e),
{
    let ops = instruction_operands(LowLevelILInstruction::SetReg(dest, e));
    assert(ops =~= seq![e]);
    assert(ops.drop_last() =~= Seq::<LowLevelILExpression>::empty());
    assert(ops.last() == e);
    assert(!variant_trees(regions, ops.drop_last()));
    assert(variant_trees(regions, ops) == variant_tree(regions, e));
}

/// An instruction that sets a register to a single expression is variant exactly when that
/// expression makes it so: a constant pointer or a constant only if it lies in one of the
/// relocatable regions, an external pointer always, a register never.
pub proof fn lemma_set_register_variant(
    regions: Seq<Range<u64>>,
    dest: LowLevelILRegister,
    v: u64,
    reg: LowLevelILRegister,
)
    ensures
        spec_variant(regions, LowLevelILInstruction::SetReg(dest, LowLevelILExpression::ConstPtr(v)))
            <==> exists|i: int| 0 <= i < regions.len() && regions[i].start <= v && v < regions[i].end,
        spec_variant(regions, LowLevelILInstruction::SetReg(dest, LowLevelILExpression::Const(v)))
            <==> exists|i: int| 0 <= i < regions.len() && regions[i].start <= v && v < regions[i].end,
        spec_variant(regions, LowLevelILInstruction::SetReg(dest, LowLevelILExpression::ExternPtr(v))),
        !spec_variant(regions, LowLevelILInstruction::SetReg(dest, LowLevelILExpression::Reg(reg))),
        !spec_variant(regions, LowLevelILInstruction::Nop),
{
    lemma_set_register_operand(regions, dest, LowLevelILExpression::ConstPtr(v));
    lemma_set_register_operand(regions, dest, LowLevelILExpression::Const(v));
    lemma_set_register_operand(regions, dest, LowLevelILExpression::ExternPtr(v));
    lemma_set_register_operand(regions, dest, LowLevelILExpression::Reg(reg));
    assert(instruction_operands(LowLevelILInstruction::Nop) =~= Seq::<LowLevelILExpression>::empty());
}

fn expression_is_variant(relocatable_regions: &[Range<u64>], e: &LowLevelILExpression) -> (r: bool)
    ensures
        r == variant_tree(relocatable_regions@, *e),
    decreases e,
{
    let node = match e {
        // Constant Pointer must be in a section for it to be relocatable.
        LowLevelILExpression::ConstPtr(v) => is_address_relocatable(relocatable_regions, *v),
        // Constant value must be in a section for it to be relocatable.
        LowLevelILExpression::Const(v) => is_address_relocatable(relocatable_regions, *v),
        LowLevelILExpression::ExternPtr(_) => true,
        _ => false,
    };
    if node {
        return true;
    }
    match e {
        LowLevelILExpression::Operation(operands) => expressions_are_variant(
            relocatable_regions,
            operands,
        ),
        _ => false,
    }
}

fn expressions_are_variant(relocatable_regions: &[Range<u64>], es: &Vec<LowLevelILExpression>) -> (r:
    bool)
    ensures
        r == variant_trees(relocatable_regions@, es@),
    decreases es@,
{
    let mut i: usize = 0;
    while i < es.len()
        invariant
            i <= es@.len(),
            !variant_trees(relocatable_regions@, es@.take(i as int)),
        decreases es@.len() - i,
    {
        proof {
            assert(es@.take(i + 1).drop_last() =~= es@.take(i as int));
            assert(decreases_to!(es@ => es@[i as int]));
        }
        if expression_is_variant(relocatable_regions, &es[i]) {
            proof {
                lemma_variant_trees_prefix(relocatable_regions@, es@, i as int);
            }
            return true;
        }
        i = i + 1;
    }
    proof {
        assert(es@.take(es@.len() as int) =~= es@);
    }
    false
}

/// A variant tree in a prefix makes the whole sequence variant.
proof fn lemma_variant_trees_prefix(
    regions: Seq<Range<u64>>,
    es: Seq<LowLevelILExpression>,
    i: int,
)
    requires
        0 <= i < es.len(),
        variant_tree(regions, es[i]),
    ensures
        variant_trees(regions, es),
    decreases es.len(),
{
    if i < es.len() - 1 {
        assert(es.drop_last()[i] == es[i]);
        lemma_variant_trees_prefix(regions, es.drop_last(), i);
    }
}

/// Is the instruction variant? Some expression in its tree is a constant pointer or constant that
/// lies in a relocatable region, or an external pointer.
pub fn is_variant_instruction(
    relocatable_regions: &[Range<u64>],
    instr: &LowLevelILInstruction,
) -> (r: bool)
    ensures
        r == spec_variant(relocatable_regions@, *instr),
{
    match instr {
        LowLevelILInstruction::Nop => {
            proof {
                assert(instruction_operands(*instr).len() == 0);
                assert(!variant_trees(relocatable_regions@, instruction_operands(*instr)));
            }
            false
        },
        LowLevelILInstruction::SetReg(_, source) => {
            let r = expression_is_variant(relocatable_regions, source);
            proof {
                let ops = instruction_operands(*instr);
                assert(ops =~= seq![*source]);
                assert(ops.drop_last() =~= Seq::<LowLevelILExpression>::empty());
                assert(!variant_trees(relocatable_regions@, ops.drop_last()));
                assert(ops.last() == *source);
            }
            r
        },
        LowLevelILInstruction::Other(operands) => expressions_are_variant(relocatable_regions, operands),
    }
}


/// An instruction of a basic block as the GUID computation reads it: the bytes read at its
/// address (as many as the architecture's longest instruction), its length if the architecture
/// decodes it, and its low level IL if it has one.
#[derive(Debug, PartialEq, Eq)]
pub struct BlockInstruction {
    pub bytes: Vec<u8>,
    pub length: Option<usize>,
    pub llil: Option<LowLevelILInstruction>,
}

/// What the instruction adds to its block's byte sequence: nothing if it is not decoded, has no
/// low level IL or is blacklisted; else its bytes, cut to its length, all zero if it is variant.
pub open spec fn instruction_bytes(regions: Seq<Range<u64>>, ins: BlockInstruction) -> Seq<u8> {
    match (ins.length, ins.llil) {
        (Some(n), Some(l)) => if spec_blacklisted(l) {
            Seq::empty()
        } else {
            let b = if n < ins.bytes@.len() {
                ins.bytes@.take(n as int)
            } else {
                ins.bytes@
            };
            if spec_variant(regions, l) {
                Seq::new(b.len(), |k: int| 0u8)
            } else {
                b
            }
        },
        _ => Seq::empty(),
    }
}

/// The byte sequence of a block: what each of its instructions adds, in order.
pub open spec fn spec_block_bytes(regions: Seq<Range<u64>>, ins: Seq<BlockInstruction>) -> Seq<u8>
    decreases ins.len(),
{
    if ins.len() == 0 {
        Seq::empty()
    } else {
        spec_block_bytes(regions, ins.drop_last()) + instruction_bytes(regions, ins.last())
    }
}

/// The masked byte sequence of a basic block, from which its GUID is computed: the bytes of each
/// decoded, non-blacklisted instruction that has low level IL, with variant instructions masked
/// to zero.
pub fn basic_block_bytes(relocatable_regions: &[Range<u64>], instructions: &[BlockInstruction]) -> (r:
    Vec<u8>)
    ensures
        r@ == spec_block_bytes(relocatable_regions@, instructions@),
{
    let mut out: Vec<u8> = Vec::new();
    let mut i: usize = 0;
    while i < instructions.len()
        invariant
            i <= instructions@.len(),
            out@ == spec_block_bytes(relocatable_regions@, instructions@.take(i as int)),
        decreases instructions@.len() - i,
    {
        let ins = &instructions[i];
        let ghost before = out@;
        proof {
            assert(instructions@.take(i + 1).drop_last() =~= instructions@.take(i as int));
        }
        if let Some(length) = ins.length {
            if let Some(llil) = &ins.llil {
                // If instruction is blacklisted don't include the bytes.
                if !is_blacklisted_instruction(llil) {
                    // Found a variant instruction, mask off entire instruction.
                    let variant = is_variant_instruction(relocatable_regions, llil);
                    let take = if length < ins.bytes.len() {
                        length
                    } else {
                        ins.bytes.len()
                    };
                    let ghost b = if length < ins.bytes@.len() {
                        ins.bytes@.take(length as int)
                    } else {
                        ins.bytes@
                    };
                    let ghost added = if variant {
                        Seq::new(b.len(), |x: int| 0u8)
                    } else {
                        b
                    };
                    let mut k: usize = 0;
                    proof {
                        assert(before + added.take(0) =~= before);
                    }
                    while k < take
                        invariant
                            k <= take <= ins.bytes@.len(),
                            b.len() == take,
                            added.len() == take,
                            forall|x: int| 0 <= x < take ==> b[x] == ins.bytes@[x],
                            added == (if variant {
                                Seq::new(b.len(), |x: int| 0u8)
                            } else {
                                b
                            }),
                            out@ == before + added.take(k as int),
                        decreases take - k,
                    {
                        if variant {
                            out.push(0u8);
                        } else {
                            out.push(ins.bytes[k]);
                        }
                        proof {
                            assert(before + added.take(k + 1) =~= (before + added.take(k as int)).push(added[k as int]));
                        }
                        k = k + 1;
                    }
                    proof {
                        assert(added.take(take as int) =~= added);
                    }
                } else {
                    proof {
                        assert(before + Seq::<u8>::empty() =~= before);
                    }
                }
            } else {
                proof {
                    assert(before + Seq::<u8>::empty() =~= before);
                }
            }
        } else {
            proof {
                assert(before + Seq::<u8>::empty() =~= before);
            }
        }
        i = i + 1;
    }
    proof {
        assert(instructions@.take(instructions@.len() as int) =~= instructions@);
    }
    out
}

/// A basic block: its start and its instructions.
#[derive(Debug, PartialEq, Eq)]
pub struct BasicBlock {
    pub start_index: u64,
    pub instructions: Vec<BlockInstruction>,
}

/// The blocks are sorted from high to low start.
pub open spec fn sorted_high_to_low(blocks: Seq<BasicBlock>) -> bool {
    forall|a: int, b: int| 0 <= a < b < blocks.len() ==> blocks[a].start_index >= blocks[b].start_index
}

/// Basic blocks sorted from high to low.
pub fn sorted_basic_blocks(blocks: Vec<BasicBlock>) -> (r: Vec<BasicBlock>)
    ensures
        r@.to_multiset() == blocks@.to_multiset(),
        sorted_high_to_low(r@),
{
    broadcast use vstd::seq_lib::group_to_multiset_ensures;

    let ghost input = blocks@;
    let mut v = blocks;
    let mut i: usize = 1;
    if v.len() == 0 {
        return v;
    }
    while i < v.len()
        invariant
            1 <= i <= v@.len(),
            v@.to_multiset() == input.to_multiset(),
            sorted_high_to_low(v@.take(i as int)),
        decreases v@.len() - i,
    {
        let ghost before = v@;
        let x = v.remove(i);
        proof {
            vstd::seq_lib::to_multiset_remove(before, i as int);
        }
        let mut j: usize = 0;
        while j < i && v[j].start_index >= x.start_index
            invariant
                j <= i < before.len(),
                v@ == before.remove(i as int),
                forall|a: int| 0 <= a < j ==> v@[a].start_index >= x.start_index,
            decreases i - j,
        {
            j = j + 1;
        }
        let ghost removed = v@;
        v.insert(j, x);
        proof {
            vstd::seq_lib::to_multiset_insert(removed, j as int, x);
            assert(v@.to_multiset() =~= input.to_multiset()) by {
                broadcast use vstd::multiset::group_multiset_axioms;
                assert(before[i as int] == x);
                assert(before.contains(x));
                vstd::seq_lib::to_multiset_contains(before, x);
                assert(before.to_multiset().count(x) > 0);
                assert(before.to_multiset().remove(x).insert(x) =~= before.to_multiset());
            }
            let t = v@.take(i + 1);
            let p = before.take(i as int);
            assert(sorted_high_to_low(p));
            assert forall|c: int| 0 <= c < i implies #[trigger] removed[c] == p[c] by {}
            if j < i {
                assert(removed[j as int].start_index < x.start_index);
            }
            assert forall|a: int, b: int| 0 <= a < b < t.len() implies #[trigger] t[a].start_index
                >= #[trigger] t[b].start_index by {
                assert(t[a] == v@[a] && t[b] == v@[b]);
                if b < j {
                    assert(v@[a] == p[a] && v@[b] == p[b]);
                } else if b == j {
                    assert(v@[a] == p[a]);
                } else if a < j {
                    assert(v@[a] == p[a] && v@[b] == p[b - 1]);
                } else if a == j {
                    assert(v@[b] == p[b - 1]);
                    assert(p[b - 1].start_index <= p[j as int].start_index);
                } else {
                    assert(v@[a] == p[a - 1] && v@[b] == p[b - 1]);
                }
            }
        }
        i = i + 1;
    }
    proof {
        assert(v@.take(v@.len() as int) =~= v@);
    }
    v
}


/// The masked byte sequences of a function's basic blocks, from which its GUID is computed: the
/// blocks sorted from high to low start, each masked as [`basic_block_bytes`] does.
pub fn function_block_bytes(relocatable_regions: &[Range<u64>], blocks: Vec<BasicBlock>) -> (r: Vec<
    Vec<u8>,
>)
    ensures
        exists|sorted: Seq<BasicBlock>|
            #![trigger sorted.to_multiset()]
            sorted.to_multiset() == blocks@.to_multiset() && sorted_high_to_low(sorted) && r@.len()
                == sorted.len() && forall|i: int|
                0 <= i < sorted.len() ==> #[trigger] r@[i]@ == spec_block_bytes(
                    relocatable_regions@,
                    sorted[i].instructions@,
                ),
{
    let sorted = sorted_basic_blocks(blocks);
    let mut r: Vec<Vec<u8>> = Vec::new();
    let mut i: usize = 0;
    while i < sorted.len()
        invariant
            i <= sorted@.len(),
            r@.len() == i,
            forall|k: int|
                0 <= k < i ==> #[trigger] r@[k]@ == spec_block_bytes(
                    relocatable_regions@,
                    sorted@[k].instructions@,
                ),
        decreases sorted@.len() - i,
    {
        r.push(basic_block_bytes(relocatable_regions, sorted[i].instructions.as_slice()));
        i = i + 1;
    }
    r
}

} // verus!
