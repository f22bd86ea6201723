//! A validated program: the only text the machine runs.

use vstd::prelude::*;
use crate::syntax::well_formed;
use crate::validate::{diagnosis, validate, ValidationError};

verus! {

/// A program text that passed validation. It cannot be changed afterwards.
#[derive(Debug)]
pub struct Program {
    code: Vec<char>,
}

impl View for Program {
    type V = Seq<char>;

    closed spec fn view(&self) -> Seq<char> {
        self.code@
    }
}

impl Program {
    /// Holds of every program: its text is well formed.
    #[verifier::type_invariant]
    pub open spec fn valid(self) -> bool {
        well_formed(self@)
    }

    /// Validates `text` and keeps it as a program, or hands back the
    /// validator's diagnostic.
    pub fn parse(text: &str) -> (result: Result<Program, ValidationError>)
        ensures
            match result {
                Ok(program) => diagnosis(text@) is None && program@ == text@,
                Err(e) => diagnosis(text@) == Some(e@),
            },
            result is Ok <==> well_formed(text@),
    {
        match validate(text) {
            Err(e) => Err(e),
            Ok(()) => {
                let mut code: Vec<char> = Vec::new();
                for c in it: text.chars()
                    invariant
                        it.seq() == text@,
                        code@ == text@.take(it.index()),
                {
                    code.push(c);
                }
                assert(code@ =~= text@);
                Ok(Program { code })
            },
        }
    }

    /// A program is short enough for its positions to be machine integers.
    pub proof fn lemma_len_fits(&self)
        ensures
            self@.len() <= usize::MAX,
    {
        assert(self.code.len() <= usize::MAX);
    }

    /// The number of instructions.
    pub fn len(&self) -> (n: usize)
        ensures
            n == self@.len(),
    {
        self.code.len()
    }

    /// The instruction at `index`, if the program is that long.
    pub fn instruction(&self, index: usize) -> (c: Option<char>)
        ensures
            c == if index < self@.len() {
                Some(self@[index as int])
            } else {
                None
            },
    {
        if index < self.code.len() {
            Some(self.code[index])
        } else {
            None
        }
    }
}

} // verus!
