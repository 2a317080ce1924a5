use vstd::prelude::*;

verus! {

/// Assembles a script byte by byte.
pub struct ScriptBuilder {
    script: Vec<u8>,
}

impl View for ScriptBuilder {
    type V = Seq<u8>;

    closed spec fn view(&self) -> Seq<u8> {
        self.script@
    }
}

impl ScriptBuilder {
    pub fn new() -> (r: Self)
        ensures
            r@ == Seq::<u8>::empty(),
    {
        ScriptBuilder { script: Vec::new() }
    }

    /// Appends one opcode or tag byte.
    pub fn add_instruction(&mut self, instruction: u8)
        ensures
            final(self)@ == old(self)@.push(instruction),
    {
        self.script.push(instruction);
    }

    /// Appends a run of bytes as they stand.
    pub fn add_bytes(&mut self, bytes: &[u8])
        ensures
            final(self)@ == old(self)@ + bytes@,
    {
        let mut i: usize = 0;
        while i < bytes.len()
            invariant
                i <= bytes@.len(),
                self.script@ == old(self)@ + bytes@.take(i as int),
            decreases bytes@.len() - i,
        {
            self.script.push(bytes[i]);
            assert(bytes@.take(i + 1) =~= bytes@.take(i as int).push(bytes@[i as int]));
            i = i + 1;
        }
        assert(bytes@.take(i as int) =~= bytes@);
    }

    /// The script assembled so far.
    pub fn get_binary(&self) -> (r: &[u8])
        ensures
            r@ == self@,
    {
        self.script.as_slice()
    }
}

} // verus!
