//! What a pseudo-terminal is asked to run, and in what size.
//!
//! A real PTY, not captured stdout: interactive scripts, `vim`, `htop` and
//! progress bars all require a terminal on the other end or they behave
//! differently — or refuse to run.

use crate::text;
use vstd::prelude::*;

verus! {

#[derive(Debug, Clone, Copy, PartialEq, Eq, Structural)]
pub struct WinSize {
    pub rows: u16,
    pub cols: u16,
}

impl Default for WinSize {
    fn default() -> (r: Self)
        ensures
            r == (WinSize { rows: 24, cols: 80 }),
    {
        WinSize { rows: 24, cols: 80 }
    }
}

/// Why an argument vector cannot be run.
#[derive(Debug, Clone, Copy, PartialEq, Eq, Structural)]
pub enum ArgvError {
    Empty,
    NulInProgram,
    NulInArgument,
}

impl ArgvError {
    pub fn message(&self) -> (r: &'static str)
        ensures
            r@ == (match *self {
                ArgvError::Empty => "empty argv"@,
                ArgvError::NulInProgram => "NUL in program"@,
                ArgvError::NulInArgument => "NUL in argument"@,
            }),
    {
        match self {
            ArgvError::Empty => "empty argv",
            ArgvError::NulInProgram => "NUL in program",
            ArgvError::NulInArgument => "NUL in argument",
        }
    }
}

/// What is wrong with an argument vector: the kernel takes NUL-terminated
/// strings, and at least one.
pub open spec fn argv_error(argv: Seq<Seq<char>>) -> Option<ArgvError> {
    if argv.len() == 0 {
        Some(ArgvError::Empty)
    } else if argv[0].contains('\0') {
        Some(ArgvError::NulInProgram)
    } else if exists|i: int| 0 <= i < argv.len() && (#[trigger] argv[i]).contains('\0') {
        Some(ArgvError::NulInArgument)
    } else {
        None
    }
}

/// Check an argument vector before anything is forked.
pub fn check_argv(argv: &Vec<String>) -> (r: Result<(), ArgvError>)
    ensures
        match r {
            Ok(()) => argv_error(text::strs(argv@)) is None,
            Err(e) => argv_error(text::strs(argv@)) == Some(e),
        },
{
    if argv.len() == 0 {
        return Err(ArgvError::Empty);
    }
    let ghost all = text::strs(argv@);
    assert(all[0] == argv@[0]@);
    if text::contains_char(argv[0].as_str(), '\0') {
        return Err(ArgvError::NulInProgram);
    }
    let mut i: usize = 0;
    while i < argv.len()
        invariant
            i <= argv.len(),
            all == text::strs(argv@),
            argv@.len() > 0,
            !all[0].contains('\0'),
            forall|j: int| 0 <= j < i ==> !(#[trigger] all[j]).contains('\0'),
        decreases argv.len() - i,
    {
        assert(all[i as int] == argv@[i as int]@);
        if text::contains_char(argv[i].as_str(), '\0') {
            return Err(ArgvError::NulInArgument);
        }
        i += 1;
    }
    Ok(())
}

/// A command line can be run exactly where it names a program and holds no NUL;
/// what is wrong with one that cannot is told by where it is wrong.
pub proof fn a_command_line_without_nul_can_be_run(argv: Seq<Seq<char>>, i: int)
    ensures
        argv.len() == 0 ==> argv_error(argv) == Some(ArgvError::Empty),
        argv.len() > 0 && argv[0].contains('\0') ==> argv_error(argv) == Some(
            ArgvError::NulInProgram,
        ),
        argv.len() > 0 && !argv[0].contains('\0') && 0 < i < argv.len() && argv[i].contains('\0')
            ==> argv_error(argv) == Some(ArgvError::NulInArgument),
        argv.len() > 0 && (forall|j: int|
            0 <= j < argv.len() ==> !(#[trigger] argv[j]).contains('\0')) ==> argv_error(argv)
            is None,
{
}

} // verus!
