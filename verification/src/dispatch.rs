//! What the three operations report.
//!
//! Listing and running a command both succeed exactly when the scan found
//! something. Checking a single file succeeds exactly when that file is an
//! ELF binary. Success is exit status 0, anything else exit status 1.

use vstd::prelude::*;
use crate::magic::is_elf;
use crate::scan::{Files, Reply, paths_of, shows_elf};
use crate::words::{split_command, split_whitespace, texts};

verus! {

/// Exit status of an operation that found what it looked for.
pub const EXIT_FOUND: i32 = 0;

/// Exit status of an operation that found nothing.
pub const EXIT_NOTHING: i32 = 1;

/// Where the output of one run of a command goes.
#[derive(Clone, Copy, PartialEq, Eq, Structural, Debug)]
pub enum Echo {
    /// Nothing is printed.
    Nothing,
    /// What the command wrote to its standard output is printed.
    Output,
    /// What the command wrote to its standard error is reported.
    Error,
}

/// A program and the arguments to start it with.
#[derive(Debug, PartialEq, Eq)]
pub struct Invocation {
    pub program: String,
    pub args: Vec<String>,
}

/// The exit status of listing, and of running a command on, `found`
/// matches.
pub fn exit_status(found: usize) -> (code: i32)
    ensures
        code == if found > 0 {
            EXIT_FOUND
        } else {
            EXIT_NOTHING
        },
{
    if found > 0 {
        EXIT_FOUND
    } else {
        EXIT_NOTHING
    }
}

/// The exit status of checking a single file, given what reading its
/// leading bytes produced. A file that could not be opened or read is not
/// an ELF binary.
pub fn check_status(reply: &Reply) -> (code: i32)
    ensures
        code == if shows_elf(*reply) {
            EXIT_FOUND
        } else {
            EXIT_NOTHING
        },
{
    match reply {
        Reply::Bytes(bytes) => {
            if is_elf(bytes.as_slice()) {
                EXIT_FOUND
            } else {
                EXIT_NOTHING
            }
        },
        _ => EXIT_NOTHING,
    }
}

/// The lines that listing prints: the path of every match in the order
/// found, or nothing in silent mode.
pub fn list_lines(files: &Vec<Files>, silent: bool) -> (lines: Vec<String>)
    ensures
        texts(lines@) == if silent {
            Seq::<Seq<char>>::empty()
        } else {
            paths_of(files@)
        },
{
    let mut lines: Vec<String> = Vec::new();
    if silent {
        assert(texts(lines@) =~= Seq::<Seq<char>>::empty());
        return lines;
    }
    let mut i: usize = 0;
    assert(texts(lines@) =~= paths_of(files@.subrange(0, 0)));
    while i < files.len()
        invariant
            i <= files.len(),
            texts(lines@) == paths_of(files@.subrange(0, i as int)),
        decreases files.len() - i,
    {
        let ghost printed = texts(lines@);
        let line = files[i].fullpath.clone();
        lines.push(line);
        assert(texts(lines@) =~= printed.push(files@[i as int].fullpath@));
        i = i + 1;
        assert(files@.subrange(0, i as int).drop_last() =~= files@.subrange(0, i - 1));
        assert(texts(lines@) =~= paths_of(files@.subrange(0, i as int)));
    }
    assert(files@.subrange(0, files.len() as int) =~= files@);
    lines
}

/// How to start the command `words` on the file `path`: the first word is
/// the program, the words after it are its arguments, and `path` is the
/// argument after those.
pub fn invocation(words: &Vec<String>, path: &str) -> (run: Invocation)
    requires
        words.len() > 0,
    ensures
        run.program@ == words[0]@,
        texts(run.args@) == texts(words@.subrange(1, words.len() as int)).push(path@),
{
    let program = words[0].clone();
    let mut args: Vec<String> = Vec::new();
    let mut i: usize = 1;
    assert(texts(args@) =~= texts(words@.subrange(1, 1)));
    while i < words.len()
        invariant
            1 <= i <= words.len(),
            texts(args@) == texts(words@.subrange(1, i as int)),
        decreases words.len() - i,
    {
        let ghost given = texts(args@);
        let word = words[i].clone();
        args.push(word);
        assert(texts(args@) =~= given.push(words@[i as int]@));
        i = i + 1;
        assert(words@.subrange(1, i as int).drop_last() =~= words@.subrange(1, i - 1));
        assert(texts(args@) =~= texts(words@.subrange(1, i as int)));
    }
    let ghost given = texts(args@);
    args.push(path.to_owned());
    assert(texts(args@) =~= given.push(path@));
    Invocation { program, args }
}

/// How to start the command line `command` on the file `path`, or `None`
/// if `command` holds no word and so names no program.
pub fn command_line(command: &str, path: &str) -> (run: Option<Invocation>)
    ensures
        run is None <==> split_whitespace(command@).len() == 0,
        run matches Some(r) ==> {
            let words = split_whitespace(command@);
            &&& r.program@ == words[0]
            &&& texts(r.args@) == words.subrange(1, words.len() as int).push(path@)
        },
{
    let words = split_command(command);
    if words.len() == 0 {
        None
    } else {
        let run = invocation(&words, path);
        assert(texts(words@.subrange(1, words.len() as int)) =~= texts(words@).subrange(
            1,
            words.len() as int,
        ));
        assert(texts(words@)[0] == words[0]@);
        Some(run)
    }
}

/// What to print of one run of the command: nothing in silent mode, else
/// its output if it succeeded and its error stream if it did not.
pub fn echo(succeeded: bool, silent: bool) -> (choice: Echo)
    ensures
        choice == if silent {
            Echo::Nothing
        } else if succeeded {
            Echo::Output
        } else {
            Echo::Error
        },
{
    if silent {
        Echo::Nothing
    } else if succeeded {
        Echo::Output
    } else {
        Echo::Error
    }
}

} // verus!
