//! Replacing small files so that no reader ever sees half of one: what is written
//! goes to a scratch file beside the destination, which then takes its name.

use vstd::prelude::*;
use crate::number;
use crate::path;
use crate::text;
use crate::text::opt;

verus! {

/// The scratch file of a destination, for a process and its `sequence`-th write.
pub open spec fn scratch_for(dest: Seq<char>, process: u32, sequence: u64) -> Option<Seq<char>> {
    match path::base_name(dest) {
        Some(name) => Some(
            path::renamed(
                dest,
                name + "."@ + number::decimal(process as nat) + "."@ + number::decimal(
                    sequence as nat,
                ) + ".tmp"@,
            ),
        ),
        None => None,
    }
}

/// The scratch file of a destination: its name with the process and the number of
/// the write. A path that names no file has none.
pub fn scratch_path(dest: &str, process: u32, sequence: u64) -> (r: Option<String>)
    ensures
        opt(r) == scratch_for(dest@, process, sequence),
{
    match path::file_name(dest) {
        Some(name) => {
            let mut scratch = text::cat3(
                name.as_str(),
                ".",
                number::nat_text(process as u64).as_str(),
            );
            scratch.append(".");
            scratch.append(number::nat_text(sequence).as_str());
            scratch.append(".tmp");
            Some(path::with_file_name(dest, scratch.as_str()))
        },
        None => None,
    }
}

/// What to do with a record that is to hold some bytes.
#[derive(Debug, Clone, Copy, PartialEq, Eq, Structural)]
pub enum WriteStep {
    /// It holds them already.
    Keep,
    Replace,
}

/// Whether two lists of bytes are the same.
fn same_bytes(a: &Vec<u8>, b: &Vec<u8>) -> (r: bool)
    ensures
        r == (a@ == b@),
{
    if a.len() != b.len() {
        return false;
    }
    let mut i: usize = 0;
    while i < a.len()
        invariant
            i <= a.len(),
            a.len() == b.len(),
            forall|j: int| 0 <= j < i ==> a@[j] == b@[j],
        decreases a.len() - i,
    {
        if a[i] != b[i] {
            return false;
        }
        i += 1;
    }
    assert(a@ =~= b@);
    true
}

/// What to do with a record, given what it holds now, if it can be read.
pub fn write_if_changed(current: &Option<Vec<u8>>, bytes: &Vec<u8>) -> (r: WriteStep)
    ensures
        (r == WriteStep::Keep) == (*current is Some && current->0@ == bytes@),
{
    match current {
        Some(held) => if same_bytes(held, bytes) {
            WriteStep::Keep
        } else {
            WriteStep::Replace
        },
        None => WriteStep::Replace,
    }
}

/// A scratch file lies beside its destination, under its name with the process and the
/// number of the write.
pub proof fn law_scratch_files_lie_beside(dir: Seq<char>, name: Seq<char>, process: u32, sequence: u64)
    requires
        dir.len() > 0,
        dir.last() != '/',
        path::strip_tail(dir) == dir,
        name.len() > 0,
        !name.contains('/'),
        name != seq!['.'],
        name != seq!['.', '.'],
    ensures
        scratch_for(path::joined(dir, name), process, sequence) == Some(
            path::joined(
                dir,
                name + "."@ + number::decimal(process as nat) + "."@ + number::decimal(
                    sequence as nat,
                ) + ".tmp"@,
            ),
        ),
{
    path::law_joined_files_have_their_names(dir, name);
}

} // verus!
