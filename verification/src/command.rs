//! The command line that `exec` runs.

use vstd::prelude::*;

verus! {

/// Splits a command line into the program to run and its arguments, in order;
/// `None` for an empty line, which names no program.
pub fn split_command<T>(command: Vec<T>) -> (split: Option<(T, Vec<T>)>)
    ensures
        match split {
            None => command@.len() == 0,
            Some((program, args)) => command@.len() > 0 && program == command@[0] && args@
                == command@.skip(1),
        },
{
    let mut command = command;
    if command.len() == 0 {
        None
    } else {
        let ghost line = command@;
        let program = command.remove(0);
        assert(command@ =~= line.skip(1));
        Some((program, command))
    }
}

} // verus!
