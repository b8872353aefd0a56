//! The manager of a run: who is asked, and what it has cost so far.

use vstd::prelude::*;

verus! {

/// The tokens that a run has used so far.
pub struct Manager {
    input_tokens: u32,
    output_tokens: u32,
}

impl Manager {
    /// Input tokens used so far, modulo 2^32.
    pub closed spec fn input_spent(&self) -> u32 {
        self.input_tokens
    }

    /// Output tokens used so far, modulo 2^32.
    pub closed spec fn output_spent(&self) -> u32 {
        self.output_tokens
    }

    /// A run that has used nothing.
    pub fn new() -> (r: Manager)
        ensures
            r.input_spent() == 0,
            r.output_spent() == 0,
    {
        Manager { input_tokens: 0, output_tokens: 0 }
    }

    /// Input tokens used so far.
    pub fn total_input_tokens(&self) -> (r: u32)
        ensures
            r == self.input_spent(),
    {
        self.input_tokens
    }

    /// Output tokens used so far.
    pub fn total_output_tokens(&self) -> (r: u32)
        ensures
            r == self.output_spent(),
    {
        self.output_tokens
    }

    /// Adds the tokens of one answer.
    pub fn spend(&mut self, input: u32, output: u32)
        ensures
            final(self).input_spent() == old(self).input_spent().wrapping_add(input),
            final(self).output_spent() == old(self).output_spent().wrapping_add(output),
    {
        self.input_tokens = self.input_tokens.wrapping_add(input);
        self.output_tokens = self.output_tokens.wrapping_add(output);
    }
}

} // verus!
