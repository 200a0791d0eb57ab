//! Downloading an artifact part by part: what is skipped, where a part goes on,
//! and when it is complete.

use vstd::prelude::*;
use crate::hub::api;
use crate::hub::api::{complaint, FilePart, HttpError, PartView};
use crate::number;
use crate::path;
use crate::text;

verus! {

/// How a download ended that did not fail.
#[derive(Debug, Clone, Copy, PartialEq, Eq, Structural)]
pub enum Outcome {
    Done,
    Cancelled,
}

/// How many bytes are read at a time.
pub const CHUNK: usize = 131_072;

/// The name under which a file is while it arrives.
pub open spec fn scratch_of(dest: Seq<char>) -> Seq<char> {
    path::renamed(
        dest,
        (match path::base_name(dest) {
            Some(n) => n,
            None => Seq::<char>::empty(),
        }) + ".part"@,
    )
}

/// The name under which a file is while it arrives: its own with a suffix.
pub fn part_path(dest: &str) -> (r: String)
    ensures
        r@ == scratch_of(dest@),
{
    let name = match path::file_name(dest) {
        Some(n) => text::cat(n.as_str(), ".part"),
        None => {
            assert(Seq::<char>::empty() + ".part"@ =~= ".part"@);
            text::copy(".part")
        },
    };
    path::with_file_name(dest, name.as_str())
}

/// Whether a part is complete on disk: a file of its size is there, or any file
/// where the size is not known.
pub open spec fn is_there(size: u64, on_disk: Option<u64>) -> bool {
    on_disk is Some && (size == 0 || on_disk->0 == size)
}

/// What to do with a part.
#[derive(Debug, Clone, Copy, PartialEq, Eq, Structural)]
pub enum PartStep {
    /// It is there; so many bytes are then done.
    Skip { done: u64 },
    Fetch,
}

/// What to do with a part, after `base` bytes of earlier ones.
pub fn next_part(part: &FilePart, on_disk: Option<u64>, base: u64) -> (r: PartStep)
    requires
        on_disk is Some ==> base + on_disk->0 <= u64::MAX,
    ensures
        r == (if is_there(part.size, on_disk) {
            PartStep::Skip { done: (base + on_disk->0) as u64 }
        } else {
            PartStep::Fetch
        }),
{
    match on_disk {
        Some(len) => if part.size == 0 || len == part.size {
            PartStep::Skip { done: base + len }
        } else {
            PartStep::Fetch
        },
        None => PartStep::Fetch,
    }
}

/// Where a part goes on: behind what is there of it, or at its start where more is
/// there than it has.
pub open spec fn offset_of(size: u64, partial: Option<u64>) -> u64 {
    match partial {
        Some(n) => if size > 0 && n >= size {
            0
        } else {
            n
        },
        None => 0,
    }
}

/// Where a part goes on.
pub fn resume_offset(part: &FilePart, partial: Option<u64>) -> (r: u64)
    ensures
        r == offset_of(part.size, partial),
{
    match partial {
        Some(n) => if part.size > 0 && n >= part.size {
            0
        } else {
            n
        },
        None => 0,
    }
}

/// What an answer to the request for a part leads to.
#[derive(Debug)]
pub enum Reply {
    /// The rest arrives from here on.
    From(u64),
    /// The place was refused; the part is asked for from its start.
    Restart,
    Failed(String),
}

pub enum ReplyView {
    From(u64),
    Restart,
    Failed(Seq<char>),
}

impl View for Reply {
    type V = ReplyView;

    open spec fn view(&self) -> ReplyView {
        match self {
            Reply::From(n) => ReplyView::From(*n),
            Reply::Restart => ReplyView::Restart,
            Reply::Failed(e) => ReplyView::Failed(e@),
        }
    }
}

/// What an answer leads to: a server that ignores the place sends everything, and
/// one that refuses it is asked once more.
pub open spec fn reply_of(offset: u64, restarted: bool, answer: Result<u16, HttpError>) -> ReplyView {
    match answer {
        Ok(status) => ReplyView::From(
            if offset > 0 && status != 206 {
                0
            } else {
                offset
            },
        ),
        Err(e) => if e == HttpError::Status(416) && !restarted {
            ReplyView::Restart
        } else {
            ReplyView::Failed(complaint(e))
        },
    }
}

/// What an answer to the request for a part leads to.
pub fn take_reply(offset: u64, restarted: bool, answer: &Result<u16, HttpError>) -> (r: Reply)
    ensures
        r@ == reply_of(offset, restarted, *answer),
{
    match answer {
        Ok(status) => Reply::From(
            if offset > 0 && *status != 206 {
                0
            } else {
                offset
            },
        ),
        Err(e) => {
            let refused = match e {
                HttpError::Status(code) => *code == 416,
                HttpError::Transport(_) => false,
            };
            if refused && !restarted {
                Reply::Restart
            } else {
                Reply::Failed(api::describe(e))
            }
        },
    }
}

/// A part that arrives: what came before it, and how much of it is written.
#[derive(Debug, Clone, Copy, PartialEq, Eq, Structural)]
pub struct Arrival {
    pub base: u64,
    pub written: u64,
}

/// What is said where a part ends before its end.
pub open spec fn short_message(part: PartView, written: u64) -> Seq<char> {
    part.rfilename + ": got "@ + number::decimal(written as nat) + " of "@ + number::decimal(
        part.size as nat,
    ) + " bytes — connection dropped? retry to resume"@
}

impl Arrival {
    /// A part that goes on at an offset.
    pub fn begin(base: u64, offset: u64) -> (r: Arrival)
        ensures
            r == (Arrival { base, written: offset }),
    {
        Arrival { base, written: offset }
    }

    /// How many bytes are done in all.
    pub fn received(&self) -> (r: u64)
        requires
            self.base + self.written <= u64::MAX,
        ensures
            r == self.base + self.written,
    {
        self.base + self.written
    }

    /// Notes that bytes were written.
    pub fn wrote(&mut self, n: u64)
        requires
            old(self).written + n <= u64::MAX,
        ensures
            *final(self) == (Arrival {
                base: old(self).base,
                written: (old(self).written + n) as u64,
            }),
    {
        self.written = self.written + n;
    }

    /// Whether the part is complete at the end of the stream: it has its size, or
    /// its size is not known.
    pub fn end(&self, part: &FilePart) -> (r: Result<(), String>)
        ensures
            match r {
                Ok(_) => part.size == 0 || self.written == part.size,
                Err(e) => part.size > 0 && self.written != part.size && e@ == short_message(
                    part@,
                    self.written,
                ),
            },
    {
        if part.size > 0 && self.written != part.size {
            let mut out = text::cat3(
                part.rfilename.as_str(),
                ": got ",
                number::nat_text(self.written).as_str(),
            );
            out.append(" of ");
            out.append(number::nat_text(part.size).as_str());
            out.append(" bytes — connection dropped? retry to resume");
            return Err(out);
        }
        Ok(())
    }
}

/// A part that is complete on disk is never fetched again, and a part that stopped
/// on its way goes on where it stopped.
pub proof fn law_nothing_is_fetched_twice(size: u64, on_disk: Option<u64>, partial: u64)
    requires
        size > 0,
    ensures
        on_disk == Some(size) ==> is_there(size, on_disk),
        partial < size ==> offset_of(size, Some(partial)) == partial,
        reply_of(partial, false, Ok(206u16)) == ReplyView::From(partial),
{
}

/// A place that is refused is given up once, and then the refusal is final.
pub proof fn law_a_refused_place_is_given_up_once(offset: u64)
    ensures
        reply_of(offset, false, Err(HttpError::Status(416))) is Restart,
        reply_of(offset, true, Err(HttpError::Status(416))) is Failed,
{
}

/// A file arrives beside its place, under its own name with a suffix.
pub proof fn law_files_arrive_beside_their_place(dir: Seq<char>, name: Seq<char>)
    requires
        dir.len() > 0,
        dir.last() != '/',
        path::strip_tail(dir) == dir,
        name.len() > 0,
        !name.contains('/'),
        name != seq!['.'],
        name != seq!['.', '.'],
    ensures
        scratch_of(path::joined(dir, name)) == path::joined(dir, name + ".part"@),
{
    path::law_joined_files_have_their_names(dir, name);
}

/// A part is complete with its own size alone; with none it starts over where too much is
/// there, and a server that sends everything is taken from the start.
pub proof fn law_parts_go_on_or_start_over(size: u64, n: u64, status: u16)
    requires
        size > 0,
    ensures
        is_there(size, Some(n)) <==> n == size,
        !is_there(size, None),
        n >= size ==> offset_of(size, Some(n)) == 0,
        offset_of(size, None) == 0,
        n > 0 && status != 206 ==> reply_of(n, false, Ok(status)) == ReplyView::From(0),
        reply_of(0, false, Ok(status)) == ReplyView::From(0),
{
}

/// A part of unknown size goes on behind whatever is there of it, and any file of it is
/// taken for complete.
pub proof fn law_parts_of_unknown_size_go_on(n: u64)
    ensures
        offset_of(0, Some(n)) == n,
        is_there(0, Some(n)),
        !is_there(0, None),
{
}

} // verus!
