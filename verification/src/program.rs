//! An executable-invocation descriptor: a command name and its ordered
//! argument list. Immutable once built; builder-style construction.

use vstd::prelude::*;

verus! {

/// The mathematical value of a [`Program`]: the command and its arguments as
/// character sequences.
pub ghost struct ProgramView {
    pub cmd: Seq<char>,
    pub args: Seq<Seq<char>>,
}

/// An executable-invocation descriptor (command name + ordered argument list).
#[derive(Debug, Clone, PartialEq)]
pub struct Program {
    pub cmd: String,
    pub args: Vec<String>,
}

impl View for Program {
    type V = ProgramView;

    open spec fn view(&self) -> ProgramView {
        ProgramView { cmd: self.cmd@, args: self.args@.map_values(|a: String| a@) }
    }
}

impl Program {
    /// A program that runs `cmd` with no arguments.
    pub fn new(cmd: &str) -> (p: Program)
        ensures
            p@.cmd == cmd@,
            p@.args == Seq::<Seq<char>>::empty(),
    {
        let p = Program { cmd: cmd.to_owned(), args: Vec::new() };
        proof {
            assert(p@.args =~= Seq::<Seq<char>>::empty());
        }
        p
    }

    /// The same program with `args` appended, in order, to the argument list.
    pub fn with_args(self, args: Vec<String>) -> (p: Program)
        ensures
            p@.cmd == self@.cmd,
            p@.args == self@.args + args@.map_values(|a: String| a@),
    {
        let mut p = self;
        let mut rest = args;
        p.args.append(&mut rest);
        proof {
            assert(p@.args =~= self@.args + args@.map_values(|a: String| a@));
        }
        p
    }
}

} // verus!
