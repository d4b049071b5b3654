use vstd::prelude::*;

use crate::data_type::ParamType;
use crate::param::Parameter;

verus! {


/// An operation code, known by its mnemonic.
#[derive(Clone, PartialEq, Debug)]
pub struct Opcode {
    pub mnemonic: String,
}

impl Opcode {
    /// The mnemonic of the operation.
    pub fn to_str(&self) -> (r: &str)
        ensures
            r@ == self.mnemonic@,
    {
        self.mnemonic.as_str()
    }
}

/// One instruction: its address, its operation and its operands.
#[derive(Clone, Debug)]
pub struct Instruction {
    pub ip: u32,
    pub op: Opcode,
    pub params: Vec<Parameter>,
}

/// A basic block: an identifier and the instructions it holds.
#[derive(Clone, Debug)]
pub struct Block {
    pub id: u32,
    pub instrs: Vec<Instruction>,
}

impl Block {
    /// An empty block with the given identifier.
    pub fn new(id: u32) -> (b: Block)
        ensures
            b.id == id,
            b.instrs@ == Seq::<Instruction>::empty(),
    {
        Block { id: id, instrs: Vec::new() }
    }
}

/// An object of an image: its header, its parameter prototype, and its code,
/// held either as a flat list of instructions or split into blocks.
#[derive(Clone, Debug)]
pub struct Object {
    pub owner_id: u16,
    pub trigger_count: u16,
    pub local_bytes: u32,
    pub last_ip: u32,
    pub params: Vec<ParamType>,
    pub instrs: Vec<Instruction>,
    pub blocks: Vec<Block>,
}

/// A whole image: its format version, its global storage size and its objects.
pub struct Image {
    pub version: u16,
    pub global_bytes: u32,
    pub objects: Vec<Object>,
}

/// Whether an object is a subroutine: owned by no object and triggered once.
pub open spec fn spec_is_subcall(o: Object) -> bool {
    o.owner_id == 0 && o.trigger_count == 1
}

/// Whether an object's code is held in one form only: not both as flat
/// instructions and as blocks.
pub open spec fn single_code_form(o: Object) -> bool {
    o.blocks@.len() == 0 || o.instrs@.len() == 0
}

/// The number of instruction runs of an object: its flat instruction list,
/// then one per block.
pub open spec fn num_runs(o: Object) -> nat {
    o.blocks@.len() + 1
}

/// Run `s` of an object: run 0 is its flat instruction list, run `k + 1` the
/// instructions of block `k`.
pub open spec fn run(o: Object, s: int) -> Seq<Instruction> {
    if s == 0 {
        o.instrs@
    } else {
        o.blocks@[s - 1].instrs@
    }
}

/// The instructions of the first `n` runs, in order.
pub open spec fn runs_prefix(o: Object, n: nat) -> Seq<Instruction>
    decreases n,
{
    if n == 0 {
        Seq::empty()
    } else {
        runs_prefix(o, (n - 1) as nat) + run(o, n - 1)
    }
}

/// Every instruction of an object in program order: the flat list first,
/// then each block's instructions in block order.
pub open spec fn all_instrs(o: Object) -> Seq<Instruction> {
    runs_prefix(o, num_runs(o))
}

/// The instructions of the blocks `0..n`, in order.
pub open spec fn blocks_instrs(blocks: Seq<Block>, n: nat) -> Seq<Instruction>
    decreases n,
{
    if n == 0 {
        Seq::empty()
    } else {
        blocks_instrs(blocks, (n - 1) as nat) + blocks[n - 1].instrs@
    }
}

/// Where the flattened position of the start of run `s` lies.
pub open spec fn run_start(o: Object, s: nat) -> nat {
    runs_prefix(o, s).len()
}

proof fn lemma_runs_prefix_blocks(o: Object, n: nat)
    requires
        n <= o.blocks@.len(),
    ensures
        runs_prefix(o, n + 1) == o.instrs@ + blocks_instrs(o.blocks@, n),
    decreases n,
{
    if n > 0 {
        lemma_runs_prefix_blocks(o, (n - 1) as nat);
        assert(runs_prefix(o, n + 1) =~= o.instrs@ + blocks_instrs(o.blocks@, n));
    } else {
        assert(runs_prefix(o, 0) =~= Seq::<Instruction>::empty());
        assert(runs_prefix(o, 1) =~= o.instrs@);
        assert(o.instrs@ + blocks_instrs(o.blocks@, 0) =~= o.instrs@);
    }
}

/// The program order of an object's instructions is its flat list followed
/// by the instructions of each block in turn.
pub proof fn lemma_all_instrs(o: Object)
    ensures
        all_instrs(o) == o.instrs@ + blocks_instrs(o.blocks@, o.blocks@.len()),
{
    lemma_runs_prefix_blocks(o, o.blocks@.len());
}

/// For an object whose code is in one form, program order is its flat list
/// when it has no blocks, and the blocks' instructions in block order when
/// its flat list is empty.
pub proof fn lemma_single_code_form_order(o: Object)
    requires
        single_code_form(o),
    ensures
        o.blocks@.len() == 0 ==> all_instrs(o) == o.instrs@,
        o.instrs@.len() == 0 ==> all_instrs(o) == blocks_instrs(o.blocks@, o.blocks@.len()),
{
    lemma_all_instrs(o);
    if o.blocks@.len() == 0 {
        assert(o.instrs@ + blocks_instrs(o.blocks@, 0) =~= o.instrs@);
    }
    if o.instrs@.len() == 0 {
        assert(o.instrs@ + blocks_instrs(o.blocks@, o.blocks@.len()) =~= blocks_instrs(
            o.blocks@,
            o.blocks@.len(),
        ));
    }
}

impl Object {
    /// A new object with the given header, no parameters and no code.
    pub fn new(owner_id: u16, trigger_count: u16, local_bytes: u32) -> (o: Object)
        ensures
            o.owner_id == owner_id,
            o.trigger_count == trigger_count,
            o.local_bytes == local_bytes,
            o.last_ip == 0,
            o.params@ == Seq::<ParamType>::empty(),
            o.instrs@ == Seq::<Instruction>::empty(),
            o.blocks@ == Seq::<Block>::empty(),
    {
        Object {
            owner_id: owner_id,
            trigger_count: trigger_count,
            local_bytes: local_bytes,
            last_ip: 0,
            params: Vec::new(),
            instrs: Vec::new(),
            blocks: Vec::new(),
        }
    }

    /// Whether this object is a subroutine.
    pub fn is_subcall(&self) -> (r: bool)
        ensures
            r == spec_is_subcall(*self),
    {
        self.owner_id == 0 && self.trigger_count == 1
    }
}

} // verus!
