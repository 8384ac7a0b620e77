//! Building a MIR body block by block.
use vstd::prelude::*;
use super::basic_block::{MIRBasicBlock, MIRTerminator, Stmt};
use super::{BlockID, LocalID, MIRLocal, Mir};

verus! {

/// Builds a MIR body: blocks are made, filled with statements, then
/// terminated; a terminated block takes no more statements.
pub struct MIRBuilder {
    pub blocks: Vec<MIRBasicBlock>,
    pub locals: Vec<MIRLocal>,
    pub entry: BlockID,
    pub parameters: Option<Vec<LocalID>>,
    current_block: BlockID,
    finalized_blocks: Vec<bool>,
}

impl MIRBuilder {
    /// The block statements go to.
    pub closed spec fn current(&self) -> nat {
        self.current_block.0 as nat
    }

    /// Whether block `b` has its terminator.
    pub closed spec fn terminated(&self, b: int) -> bool {
        self.finalized_blocks@[b]
    }

    /// The current block and the entry are blocks, and every block is
    /// either terminated or not.
    pub closed spec fn wf(&self) -> bool {
        &&& self.finalized_blocks@.len() == self.blocks@.len()
        &&& self.current_block.0 < self.blocks@.len()
        &&& self.entry.0 < self.blocks@.len()
    }

    /// A well-formed builder's current block and entry are among its blocks.
    pub proof fn lemma_wf_blocks(&self)
        requires
            self.wf(),
        ensures
            self.current() < self.blocks_seq().len(),
            self.entry_id().0 < self.blocks_seq().len(),
    {
    }

    /// The blocks so far.
    pub closed spec fn blocks_seq(&self) -> Seq<MIRBasicBlock> {
        self.blocks@
    }

    /// The locals so far.
    pub closed spec fn locals_seq(&self) -> Seq<MIRLocal> {
        self.locals@
    }

    /// The entry block.
    pub closed spec fn entry_id(&self) -> BlockID {
        self.entry
    }

    /// The parameters, once set.
    pub closed spec fn params(&self) -> Option<Vec<LocalID>> {
        self.parameters
    }

    /// A builder with one empty entry block, which is current.
    pub fn new(entry_name: Option<String>) -> (r: Self)
        ensures
            r.wf(),
            r.blocks_seq().len() == 1,
            r.blocks_seq()[0].stmts@.len() == 0,
            r.blocks_seq()[0].name == entry_name,
            r.locals_seq().len() == 0,
            r.entry_id().0 == 0,
            r.current() == 0,
            !r.terminated(0),
            r.params() is None,
    {
        let mut blocks: Vec<MIRBasicBlock> = Vec::new();
        blocks.push(MIRBasicBlock::empty(entry_name));
        let mut finalized_blocks: Vec<bool> = Vec::new();
        finalized_blocks.push(false);
        MIRBuilder {
            blocks,
            locals: Vec::new(),
            entry: BlockID(0),
            parameters: None,
            current_block: BlockID(0),
            finalized_blocks,
        }
    }

    /// Ends the current block with `terminator`; refused (`None`, nothing
    /// changed) if it already has one.
    pub fn terminate(&mut self, terminator: MIRTerminator) -> (r: Option<()>)
        requires
            old(self).wf(),
        ensures
            final(self).wf(),
            final(self).current() == old(self).current(),
            final(self).locals_seq() == old(self).locals_seq(),
            final(self).entry_id() == old(self).entry_id(),
            final(self).params() == old(self).params(),
            final(self).blocks_seq().len() == old(self).blocks_seq().len(),
            old(self).terminated(old(self).current() as int) ==> r is None && final(self).blocks_seq()
                == old(self).blocks_seq() && forall|b: int|
                0 <= b < old(self).blocks_seq().len() ==> final(self).terminated(b) == old(self).terminated(b),
            !old(self).terminated(old(self).current() as int) ==> {
                let c = old(self).current() as int;
                &&& r is Some
                &&& final(self).blocks_seq() == old(self).blocks_seq().update(
                    c,
                    MIRBasicBlock { terminator, ..old(self).blocks_seq()[c] },
                )
                &&& forall|b: int|
                    0 <= b < old(self).blocks_seq().len() ==> final(self).terminated(b) == (b == c
                        || old(self).terminated(b))
            },
    {
        let c = self.current_block.0;
        if self.finalized_blocks[c] {
            return None;
        }
        self.finalized_blocks.set(c, true);
        let mut block = MIRBasicBlock::empty(None);
        std::mem::swap(&mut block, &mut self.blocks[c]);
        block.terminator = terminator;
        self.blocks.set(c, block);
        Some(())
    }

    /// Makes `block` current; refused (`None`, nothing changed) if it is
    /// terminated.
    pub fn switch_to_block(&mut self, block: BlockID) -> (r: Option<()>)
        requires
            old(self).wf(),
            block.0 < old(self).blocks_seq().len(),
        ensures
            final(self).wf(),
            final(self).blocks_seq() == old(self).blocks_seq(),
            final(self).locals_seq() == old(self).locals_seq(),
            final(self).entry_id() == old(self).entry_id(),
            final(self).params() == old(self).params(),
            forall|b: int|
                0 <= b < old(self).blocks_seq().len() ==> final(self).terminated(b) == old(self).terminated(b),
            old(self).terminated(block.0 as int) ==> r is None && final(self).current()
                == old(self).current(),
            !old(self).terminated(block.0 as int) ==> r is Some && final(self).current() == block.0,
    {
        if self.finalized_blocks[block.0] {
            return None;
        }
        self.current_block = block;
        Some(())
    }

    /// Appends a statement to the current block, which must not be
    /// terminated.
    pub fn emit(&mut self, stmt: Stmt)
        requires
            old(self).wf(),
            !old(self).terminated(old(self).current() as int),
        ensures
            final(self).wf(),
            final(self).current() == old(self).current(),
            final(self).locals_seq() == old(self).locals_seq(),
            final(self).entry_id() == old(self).entry_id(),
            final(self).params() == old(self).params(),
            forall|b: int|
                0 <= b < old(self).blocks_seq().len() ==> final(self).terminated(b) == old(self).terminated(b),
            final(self).blocks_seq().len() == old(self).blocks_seq().len(),
            forall|b: int|
                0 <= b < old(self).blocks_seq().len() && b != old(self).current() ==> final(self).blocks_seq()[b]
                    == old(self).blocks_seq()[b],
            final(self).blocks_seq()[old(self).current() as int].stmts@ == old(self).blocks_seq()[old(
                self,
            ).current() as int].stmts@.push(stmt),
            final(self).blocks_seq()[old(self).current() as int].terminator == old(self).blocks_seq()[old(
                self,
            ).current() as int].terminator,
            final(self).blocks_seq()[old(self).current() as int].name == old(self).blocks_seq()[old(
                self,
            ).current() as int].name,
    {
        let c = self.current_block.0;
        let mut block = MIRBasicBlock::empty(None);
        std::mem::swap(&mut block, &mut self.blocks[c]);
        block.stmts.push(stmt);
        self.blocks.set(c, block);
    }

    /// Adds an empty block, not terminated, and returns its id.
    pub fn new_block(&mut self, name: Option<String>) -> (r: BlockID)
        requires
            old(self).wf(),
        ensures
            final(self).wf(),
            r.0 == old(self).blocks_seq().len(),
            final(self).blocks_seq().len() == old(self).blocks_seq().len() + 1,
            forall|b: int| 0 <= b < old(self).blocks_seq().len() ==> final(self).blocks_seq()[b] == old(self).blocks_seq()[b],
            final(self).blocks_seq()[r.0 as int].stmts@.len() == 0,
            final(self).blocks_seq()[r.0 as int].terminator is Diverge,
            final(self).blocks_seq()[r.0 as int].name == name,
            !final(self).terminated(r.0 as int),
            forall|b: int|
                0 <= b < old(self).blocks_seq().len() ==> final(self).terminated(b) == old(self).terminated(b),
            final(self).current() == old(self).current(),
            final(self).locals_seq() == old(self).locals_seq(),
            final(self).entry_id() == old(self).entry_id(),
            final(self).params() == old(self).params(),
    {
        let id = BlockID(self.blocks.len());
        self.blocks.push(MIRBasicBlock::empty(name));
        self.finalized_blocks.push(false);
        id
    }

    /// Adds a local and returns its id.
    pub fn new_local(&mut self, local: MIRLocal) -> (r: LocalID)
        requires
            old(self).wf(),
        ensures
            final(self).wf(),
            r.0 == old(self).locals_seq().len(),
            final(self).locals_seq() == old(self).locals_seq().push(local),
            final(self).blocks_seq() == old(self).blocks_seq(),
            final(self).current() == old(self).current(),
            final(self).entry_id() == old(self).entry_id(),
            final(self).params() == old(self).params(),
            forall|b: int|
                0 <= b < old(self).blocks_seq().len() ==> final(self).terminated(b) == old(self).terminated(b),
    {
        let id = LocalID(self.locals.len());
        self.locals.push(local);
        id
    }

    /// Renames a block.
    pub fn set_block_name(&mut self, block: BlockID, name: Option<String>)
        requires
            old(self).wf(),
            block.0 < old(self).blocks_seq().len(),
        ensures
            final(self).wf(),
            final(self).blocks_seq() == old(self).blocks_seq().update(
                block.0 as int,
                MIRBasicBlock { name, ..old(self).blocks_seq()[block.0 as int] },
            ),
            final(self).locals_seq() == old(self).locals_seq(),
            final(self).current() == old(self).current(),
            final(self).entry_id() == old(self).entry_id(),
            final(self).params() == old(self).params(),
            forall|b: int|
                0 <= b < old(self).blocks_seq().len() ==> final(self).terminated(b) == old(self).terminated(b),
    {
        let mut blk = MIRBasicBlock::empty(None);
        std::mem::swap(&mut blk, &mut self.blocks[block.0]);
        blk.name = name;
        self.blocks.set(block.0, blk);
    }

    /// The entry block.
    pub fn entry_block(&self) -> (r: BlockID)
        ensures
            r == self.entry_id(),
    {
        self.entry
    }

    /// The block statements go to.
    pub fn current_block(&self) -> (r: BlockID)
        ensures
            r.0 == self.current(),
    {
        self.current_block
    }

    /// Whether `block` has its terminator.
    pub fn is_terminated(&self, block: BlockID) -> (r: bool)
        requires
            self.wf(),
        ensures
            r == (block.0 < self.blocks_seq().len() && self.terminated(block.0 as int)),
    {
        block.0 < self.finalized_blocks.len() && self.finalized_blocks[block.0]
    }

    /// Sets the locals that hold the parameters; refused (`None`, nothing
    /// changed) if they were set already.
    pub fn set_parameters(&mut self, parameters: Vec<LocalID>) -> (r: Option<()>)
        requires
            old(self).wf(),
        ensures
            final(self).wf(),
            final(self).blocks_seq() == old(self).blocks_seq(),
            final(self).locals_seq() == old(self).locals_seq(),
            final(self).entry_id() == old(self).entry_id(),
            final(self).current() == old(self).current(),
            forall|b: int|
                0 <= b < old(self).blocks_seq().len() ==> final(self).terminated(b) == old(self).terminated(b),
            old(self).params() is Some ==> r is None && final(self).params() == old(self).params(),
            old(self).params() is None ==> r is Some && final(self).params() == Some(parameters),
    {
        if self.parameters.is_some() {
            return None;
        }
        self.parameters = Some(parameters);
        Some(())
    }

    /// The body, once every block is terminated and the parameters are set;
    /// `None` otherwise.
    pub fn finalize(self) -> (r: Option<Mir>)
        requires
            self.wf(),
        ensures
            (forall|b: int| 0 <= b < self.blocks_seq().len() ==> self.terminated(b)) && self.params()
                is Some <==> r is Some,
            r matches Some(m) ==> m.blocks@ == self.blocks_seq() && m.locals@ == self.locals_seq()
                && m.entry == self.entry_id() && Some(m.parameters) == self.params(),
    {
        let mut i: usize = 0;
        while i < self.finalized_blocks.len()
            invariant
                self.wf(),
                i <= self.finalized_blocks@.len(),
                forall|b: int| 0 <= b < i ==> self.terminated(b),
            decreases self.finalized_blocks@.len() - i,
        {
            if !self.finalized_blocks[i] {
                assert(!self.terminated(i as int));
                return None;
            }
            i += 1;
        }
        let MIRBuilder { blocks, locals, entry, parameters, .. } = self;
        match parameters {
            Some(parameters) => Some(Mir { blocks, locals, parameters, entry }),
            None => None,
        }
    }
}

} // verus!
