//! The program model the diff engine consumes: a `Program` maps function
//! names to `Function`s, a `Function` is an ordered list of `BasicBlock`s,
//! and a `BasicBlock` is a list of body `Instruction`s closed by at most one
//! terminator instruction.

use vstd::prelude::*;
use crate::llvm::IrOp;

verus! {

/// One decoded instruction.
///
/// Machine instructions carry an opcode identity `tag` (two machine
/// instructions have the same opcode exactly when their tags are equal) and
/// the rendered text shown to the user.  Compiler-IR instructions carry the
/// kind of operation plus the one or two rendered fields that scoring
/// compares (a cast's target type, a comparison's predicate, an atomic
/// operation's ordering and operation).
pub enum Instruction {
    /// A machine-code instruction.
    Machine { tag: String, text: String },
    /// A compiler-IR instruction or terminator.
    Ir { op: IrOp, detail: String, extra: String, text: String },
}

impl Instruction {
    /// The rendered form of the instruction.
    pub open spec fn spec_text(self) -> Seq<char> {
        match self {
            Instruction::Machine { text, .. } => text@,
            Instruction::Ir { text, .. } => text@,
        }
    }

    /// Display the instruction for the user to consume.
    pub fn render(&self) -> (r: &str)
        ensures
            r@ == self.spec_text(),
    {
        match self {
            Instruction::Machine { text, .. } => text.as_str(),
            Instruction::Ir { text, .. } => text.as_str(),
        }
    }
}

/// A basic block: a run of body instructions closed by at most one
/// flow-control instruction.  A block decoded past the last flow-control
/// instruction of a function has no terminator.
pub struct BasicBlock {
    /// The display name of the block (for machine code, its index).
    pub name: String,
    /// The body instructions, excluding the terminator.
    pub body: Vec<Instruction>,
    /// The final flow-control instruction, if there is one.
    pub terminator: Option<Instruction>,
}

impl BasicBlock {
    /// Get a body instruction by index.
    pub fn get(&self, index: usize) -> (r: &Instruction)
        requires
            index < self.body@.len(),
        ensures
            *r == self.body@[index as int],
    {
        &self.body[index]
    }

    /// The number of body instructions in the block (excluding the
    /// terminator).
    pub fn len(&self) -> (r: usize)
        ensures
            r == self.body@.len(),
    {
        self.body.len()
    }

    /// The display name of the block.
    pub fn name(&self) -> (r: &str)
        ensures
            r@ == self.name@,
    {
        self.name.as_str()
    }

    /// The final flow control instruction, or `None` for a trailing chunk
    /// with no flow control.
    pub fn terminator(&self) -> (r: &Option<Instruction>)
        ensures
            *r == self.terminator,
    {
        &self.terminator
    }
}

/// The mathematical content of a basic block.
pub struct BlockModel {
    /// The display name of the block.
    pub name: Seq<char>,
    /// The body instructions.
    pub body: Seq<Instruction>,
    /// The terminator, if there is one.
    pub terminator: Option<Instruction>,
}

impl View for BasicBlock {
    type V = BlockModel;

    open spec fn view(&self) -> BlockModel {
        BlockModel { name: self.name@, body: self.body@, terminator: self.terminator }
    }
}

/// A block sequence, viewed mathematically.
pub open spec fn blocks_model(s: Seq<BasicBlock>) -> Seq<BlockModel> {
    s.map_values(|b: BasicBlock| b@)
}

/// The mathematical content of a function.
pub struct FunctionModel {
    /// The display name of the function.
    pub name: Seq<char>,
    /// The basic blocks, in order.
    pub blocks: Seq<BlockModel>,
}

/// A function sequence, viewed mathematically.
pub open spec fn funcs_model(s: Seq<Function>) -> Seq<FunctionModel> {
    s.map_values(|f: Function| f@)
}

/// Replace the function model of the same name, or append at the end.
pub open spec fn spec_insert_model(funcs: Seq<FunctionModel>, f: FunctionModel) -> Seq<
    FunctionModel,
>
    decreases funcs.len(),
{
    if funcs.len() == 0 {
        seq![f]
    } else if funcs.first().name == f.name {
        seq![f] + funcs.drop_first()
    } else {
        seq![funcs.first()] + spec_insert_model(funcs.drop_first(), f)
    }
}

/// Inserting and then viewing is viewing and then inserting.
pub proof fn lemma_insert_model(funcs: Seq<Function>, f: Function)
    ensures
        funcs_model(spec_insert_fn(funcs, f)) == spec_insert_model(funcs_model(funcs), f@),
    decreases funcs.len(),
{
    if funcs.len() == 0 {
        assert(funcs_model(spec_insert_fn(funcs, f)) =~= spec_insert_model(
            funcs_model(funcs),
            f@,
        ));
    } else if funcs.first().name@ == f.name@ {
        assert(funcs_model(funcs).first() == funcs.first()@);
        assert(funcs_model(spec_insert_fn(funcs, f)) =~= spec_insert_model(
            funcs_model(funcs),
            f@,
        ));
    } else {
        lemma_insert_model(funcs.drop_first(), f);
        assert(funcs_model(funcs).first() == funcs.first()@);
        assert(funcs_model(funcs.drop_first()) =~= funcs_model(funcs).drop_first());
        assert(funcs_model(spec_insert_fn(funcs, f)) =~= spec_insert_model(
            funcs_model(funcs),
            f@,
        ));
    }
}

/// A named function: an ordered sequence of basic blocks.
pub struct Function {
    /// The display name of the function (demangled where possible).
    pub name: String,
    /// The basic blocks, in order of appearance.
    pub blocks: Vec<BasicBlock>,
}

impl View for Function {
    type V = FunctionModel;

    open spec fn view(&self) -> FunctionModel {
        FunctionModel { name: self.name@, blocks: blocks_model(self.blocks@) }
    }
}

impl Function {
    /// The basic blocks of this function, in a stable order.
    pub fn blocks(&self) -> (r: &Vec<BasicBlock>)
        ensures
            *r == self.blocks,
    {
        &self.blocks
    }

    /// The display name of the function.
    pub fn name(&self) -> (r: &str)
        ensures
            r@ == self.name@,
    {
        self.name.as_str()
    }
}

/// The first function of the sequence carrying the given name, if any.
pub open spec fn seq_get_fn(funcs: Seq<Function>, name: Seq<char>) -> Option<Function>
    decreases funcs.len(),
{
    if funcs.len() == 0 {
        None
    } else if funcs.first().name@ == name {
        Some(funcs.first())
    } else {
        seq_get_fn(funcs.drop_first(), name)
    }
}

/// No two functions of the sequence share a name.
pub open spec fn unique_names(funcs: Seq<Function>) -> bool {
    forall|i: int, j: int|
        0 <= i < j < funcs.len() ==> funcs[i].name@ != funcs[j].name@
}

/// Replace the function of the same name, or append at the end.
pub open spec fn spec_insert_fn(funcs: Seq<Function>, f: Function) -> Seq<Function>
    decreases funcs.len(),
{
    if funcs.len() == 0 {
        seq![f]
    } else if funcs.first().name@ == f.name@ {
        seq![f] + funcs.drop_first()
    } else {
        seq![funcs.first()] + spec_insert_fn(funcs.drop_first(), f)
    }
}

/// A source program: a collection of named functions, keyed by (demangled)
/// name, together with the gap penalty of its instruction set.
pub struct Program {
    /// The functions, in a stable order, names unique.
    pub funcs: Vec<Function>,
    /// The positive cost of inserting a gap into one side of an instruction
    /// stream during alignment.
    pub gap: u32,
}

impl Program {
    /// Names are unique and the gap penalty is positive.
    pub open spec fn wf(self) -> bool {
        unique_names(self.funcs@) && self.gap >= 1
    }

    /// An empty program.
    pub fn new(gap: u32) -> (r: Program)
        requires
            gap >= 1,
        ensures
            r.funcs@.len() == 0,
            r.gap == gap,
            r.wf(),
    {
        Program { funcs: Vec::new(), gap }
    }

    /// Retrieve a function by name, if it exists.
    pub fn get(&self, name: &str) -> (r: Option<&Function>)
        ensures
            match r {
                Some(f) => seq_get_fn(self.funcs@, name@) == Some(*f),
                None => seq_get_fn(self.funcs@, name@) is None,
            },
    {
        let n = self.funcs.len();
        proof {
            assert(self.funcs@.skip(0) =~= self.funcs@);
        }
        for i in 0..n
            invariant
                n == self.funcs@.len(),
                seq_get_fn(self.funcs@, name@) == seq_get_fn(self.funcs@.skip(i as int), name@),
        {
            proof {
                lemma_seq_get_unfold(self.funcs@, name@, i as int);
            }
            if crate::util::str_eq(name, self.funcs[i].name.as_str()) {
                return Some(&self.funcs[i]);
            }
        }
        None
    }

    /// All functions, in a stable order.
    pub fn functions(&self) -> (r: &Vec<Function>)
        ensures
            *r == self.funcs,
    {
        &self.funcs
    }

    /// Add a function, replacing any existing function of the same name.
    pub fn insert(&mut self, f: Function)
        ensures
            final(self).funcs@ == spec_insert_fn(old(self).funcs@, f),
            final(self).gap == old(self).gap,
            old(self).wf() ==> final(self).wf(),
    {
        proof {
            if old(self).wf() {
                lemma_insert_fn_unique(self.funcs@, f);
            }
        }
        let n = self.funcs.len();
        for i in 0..n
            invariant
                n == self.funcs@.len(),
                self.funcs == old(self).funcs,
                self.gap == old(self).gap,
                forall|k: int| 0 <= k < i ==> self.funcs@[k].name@ != f.name@,
        {
            if crate::util::str_eq(self.funcs[i].name.as_str(), f.name.as_str()) {
                proof {
                    lemma_insert_fn_at(self.funcs@, f, i as int);
                }
                self.funcs.set(i, f);
                return;
            }
        }
        proof {
            lemma_insert_fn_push(self.funcs@, f);
        }
        self.funcs.push(f);
    }
}

/// Unfolding lemma: if the first `i` functions all miss the name, the lookup
/// is decided by the rest.
proof fn lemma_seq_get_unfold(funcs: Seq<Function>, name: Seq<char>, i: int)
    requires
        0 <= i < funcs.len(),
        seq_get_fn(funcs, name) == seq_get_fn(funcs.skip(i), name),
    ensures
        funcs[i].name@ == name ==> seq_get_fn(funcs, name) == Some(funcs[i]),
        funcs[i].name@ != name ==> seq_get_fn(funcs, name) == seq_get_fn(funcs.skip(i + 1), name),
{
    assert(funcs.skip(i).len() > 0);
    assert(funcs.skip(i).first() == funcs[i]);
    assert(funcs.skip(i).drop_first() =~= funcs.skip(i + 1));
}

/// A name is found exactly when some function of the sequence carries it,
/// and what is found is such a function.
pub proof fn lemma_get_iff_named(funcs: Seq<Function>, name: Seq<char>)
    ensures
        (seq_get_fn(funcs, name) is Some) <==> (exists|i: int|
            0 <= i < funcs.len() && funcs[i].name@ == name),
        seq_get_fn(funcs, name) matches Some(f) ==> f.name@ == name && (exists|i: int|
            0 <= i < funcs.len() && funcs[i] == f),
    decreases funcs.len(),
{
    if funcs.len() == 0 {
    } else if funcs.first().name@ == name {
        assert(funcs[0].name@ == name);
    } else {
        lemma_get_iff_named(funcs.drop_first(), name);
        if exists|i: int| 0 <= i < funcs.len() && funcs[i].name@ == name {
            let i = choose|i: int| 0 <= i < funcs.len() && funcs[i].name@ == name;
            assert(i != 0);
            assert(funcs.drop_first()[i - 1].name@ == name);
        }
        if seq_get_fn(funcs, name) is Some {
            let f = seq_get_fn(funcs, name)->0;
            let i = choose|i: int|
                0 <= i < funcs.drop_first().len() && funcs.drop_first()[i] == f;
            assert(funcs[i + 1] == f);
        }
    }
}

/// Under unique names, looking a function's own name up finds it.
pub proof fn lemma_get_self(funcs: Seq<Function>, k: int)
    requires
        unique_names(funcs),
        0 <= k < funcs.len(),
    ensures
        seq_get_fn(funcs, funcs[k].name@) == Some(funcs[k]),
    decreases k,
{
    if k == 0 {
    } else {
        assert(funcs.first().name@ != funcs[k].name@);
        assert(forall|i: int, j: int|
            0 <= i < j < funcs.drop_first().len() ==> funcs.drop_first()[i].name@
                != funcs.drop_first()[j].name@);
        lemma_get_self(funcs.drop_first(), k - 1);
        assert(funcs.drop_first()[k - 1] == funcs[k]);
    }
}

/// Inserting keeps names unique.
proof fn lemma_insert_fn_unique(funcs: Seq<Function>, f: Function)
    requires
        unique_names(funcs),
    ensures
        unique_names(spec_insert_fn(funcs, f)),
    decreases funcs.len(),
{
    lemma_insert_fn_names(funcs, f);
    if funcs.len() == 0 {
    } else if funcs.first().name@ == f.name@ {
        let r = seq![f] + funcs.drop_first();
        assert forall|i: int, j: int| 0 <= i < j < r.len() implies r[i].name@ != r[j].name@ by {
            if i == 0 {
                assert(r[j] == funcs[j]);
                assert(funcs[0].name@ != funcs[j].name@);
            } else {
                assert(r[i] == funcs[i] && r[j] == funcs[j]);
            }
        }
    } else {
        assert(forall|i: int, j: int|
            0 <= i < j < funcs.drop_first().len() ==> funcs.drop_first()[i].name@
                != funcs.drop_first()[j].name@);
        lemma_insert_fn_unique(funcs.drop_first(), f);
        let rest = spec_insert_fn(funcs.drop_first(), f);
        let r = seq![funcs.first()] + rest;
        assert forall|i: int, j: int| 0 <= i < j < r.len() implies r[i].name@ != r[j].name@ by {
            if i == 0 {
                assert(r[j] == rest[j - 1]);
                lemma_insert_fn_names(funcs.drop_first(), f);
                if rest[j - 1] == f {
                } else {
                    let k = choose|k: int|
                        0 <= k < funcs.drop_first().len() && funcs.drop_first()[k] == rest[j - 1];
                    assert(funcs[k + 1] == rest[j - 1]);
                }
            } else {
                assert(r[i] == rest[i - 1] && r[j] == rest[j - 1]);
            }
        }
    }
}

/// Every function of an insertion result is the new function or one of the
/// old ones.
pub proof fn lemma_insert_fn_names(funcs: Seq<Function>, f: Function)
    ensures
        forall|k: int|
            0 <= k < spec_insert_fn(funcs, f).len() ==> (spec_insert_fn(funcs, f)[k] == f
                || exists|i: int| 0 <= i < funcs.len() && funcs[i] == spec_insert_fn(funcs, f)[k]),
    decreases funcs.len(),
{
    if funcs.len() == 0 {
    } else if funcs.first().name@ == f.name@ {
        assert forall|k: int| 0 <= k < spec_insert_fn(funcs, f).len() implies (
            spec_insert_fn(funcs, f)[k] == f || exists|i: int|
                0 <= i < funcs.len() && funcs[i] == spec_insert_fn(funcs, f)[k]) by {
            if k > 0 {
                assert(funcs[k] == spec_insert_fn(funcs, f)[k]);
            }
        }
    } else {
        lemma_insert_fn_names(funcs.drop_first(), f);
        let rest = spec_insert_fn(funcs.drop_first(), f);
        assert forall|k: int| 0 <= k < spec_insert_fn(funcs, f).len() implies (
            spec_insert_fn(funcs, f)[k] == f || exists|i: int|
                0 <= i < funcs.len() && funcs[i] == spec_insert_fn(funcs, f)[k]) by {
            if k == 0 {
                assert(funcs[0] == spec_insert_fn(funcs, f)[0]);
            } else {
                assert(spec_insert_fn(funcs, f)[k] == rest[k - 1]);
                if rest[k - 1] != f {
                    let i = choose|i: int|
                        0 <= i < funcs.drop_first().len() && funcs.drop_first()[i] == rest[k - 1];
                    assert(funcs[i + 1] == rest[k - 1]);
                }
            }
        }
    }
}

/// When the first match sits at index `i`, insertion is an in-place update.
proof fn lemma_insert_fn_at(funcs: Seq<Function>, f: Function, i: int)
    requires
        0 <= i < funcs.len(),
        funcs[i].name@ == f.name@,
        forall|k: int| 0 <= k < i ==> funcs[k].name@ != f.name@,
    ensures
        spec_insert_fn(funcs, f) == funcs.update(i, f),
    decreases i,
{
    if i == 0 {
        assert(spec_insert_fn(funcs, f) =~= funcs.update(0, f));
    } else {
        assert(funcs.drop_first()[i - 1].name@ == f.name@);
        assert(forall|k: int| 0 <= k < i - 1 ==> funcs.drop_first()[k].name@ != f.name@);
        lemma_insert_fn_at(funcs.drop_first(), f, i - 1);
        assert(spec_insert_fn(funcs, f) =~= funcs.update(i, f));
    }
}

/// When no name matches, insertion is an append.
proof fn lemma_insert_fn_push(funcs: Seq<Function>, f: Function)
    requires
        forall|k: int| 0 <= k < funcs.len() ==> funcs[k].name@ != f.name@,
    ensures
        spec_insert_fn(funcs, f) == funcs.push(f),
    decreases funcs.len(),
{
    if funcs.len() == 0 {
        assert(spec_insert_fn(funcs, f) =~= funcs.push(f));
    } else {
        assert(forall|k: int|
            0 <= k < funcs.drop_first().len() ==> funcs.drop_first()[k].name@ != f.name@);
        lemma_insert_fn_push(funcs.drop_first(), f);
        assert(spec_insert_fn(funcs, f) =~= funcs.push(f));
    }
}

} // verus!
