//! File discovery: what to make of the entries that a walk over the given
//! paths came upon.
//!
//! The walk itself, with its ignore-file handling, is the caller's. Here its
//! events are turned into the list of files to process, or into the error
//! that names the paths that failed.

use vstd::prelude::*;
use vstd::string::StringExecFns;

verus! {

/// One thing that the walk over the given paths came upon.
pub enum WalkEvent {
    /// An entry of the tree: its path, and whether it is a regular file.
    Entry { path: String, is_file: bool },
    /// A failure: the given path under which the walk failed, as displayed.
    Failed { root: String },
}

/// The paths of the regular files among `events`, in order.
pub open spec fn files_of(events: Seq<WalkEvent>) -> Seq<Seq<char>>
    decreases events.len(),
{
    if events.len() == 0 {
        Seq::empty()
    } else {
        let before = files_of(events.drop_last());
        match events.last() {
            WalkEvent::Entry { path, is_file } => if is_file {
                before.push(path@)
            } else {
                before
            },
            WalkEvent::Failed { root } => before,
        }
    }
}

/// The paths under which the walk failed, in order, once for each failure.
pub open spec fn failures_of(events: Seq<WalkEvent>) -> Seq<Seq<char>>
    decreases events.len(),
{
    if events.len() == 0 {
        Seq::empty()
    } else {
        let before = failures_of(events.drop_last());
        match events.last() {
            WalkEvent::Entry { path, is_file } => before,
            WalkEvent::Failed { root } => before.push(root@),
        }
    }
}

/// The texts of `parts` with `sep` between each two neighbours.
pub open spec fn join_with(parts: Seq<Seq<char>>, sep: Seq<char>) -> Seq<char>
    decreases parts.len(),
{
    if parts.len() == 0 {
        Seq::empty()
    } else if parts.len() == 1 {
        parts[0]
    } else {
        join_with(parts.drop_last(), sep) + sep + parts.last()
    }
}

/// The text of the error for a walk that failed under `failures`.
pub open spec fn failure_message(failures: Seq<Seq<char>>) -> Seq<char> {
    "errors occurred while processing files: "@ + join_with(failures, ", "@)
}

/// The texts of a list of strings.
pub open spec fn texts_of(list: Seq<String>) -> Seq<Seq<char>> {
    Seq::new(list.len(), |i: int| list[i]@)
}

/// The files to process, from the events of the walk.
///
/// Returns the paths of all regular files, in the order in which the walk
/// came upon them, if the walk failed nowhere. If it failed anywhere, the
/// result is an error whose text names each path under which it failed.
pub fn find_files(events: &Vec<WalkEvent>) -> (found: Result<Vec<String>, String>)
    ensures
        match found {
            Ok(files) => failures_of(events@).len() == 0 && texts_of(files@) == files_of(events@),
            Err(message) => failures_of(events@).len() > 0 && message@ == failure_message(
                failures_of(events@),
            ),
        },
{
    let mut files: Vec<String> = Vec::new();
    let mut error_paths: Vec<String> = Vec::new();
    let mut i: usize = 0;
    proof {
        assert(events@.subrange(0, 0) =~= Seq::<WalkEvent>::empty());
        assert(texts_of(files@) =~= Seq::<Seq<char>>::empty());
        assert(texts_of(error_paths@) =~= Seq::<Seq<char>>::empty());
    }
    while i < events.len()
        invariant
            i <= events.len(),
            texts_of(files@) == files_of(events@.subrange(0, i as int)),
            texts_of(error_paths@) == failures_of(events@.subrange(0, i as int)),
        decreases events.len() - i,
    {
        let ghost old_files = files@;
        let ghost old_errors = error_paths@;
        proof {
            let next = events@.subrange(0, i + 1);
            assert(next.drop_last() =~= events@.subrange(0, i as int));
            assert(next.last() == events@[i as int]);
        }
        match &events[i] {
            WalkEvent::Entry { path, is_file } => {
                if *is_file {
                    files.push(path.clone());
                    proof {
                        assert(texts_of(files@) =~= texts_of(old_files).push(path@));
                    }
                }
            },
            WalkEvent::Failed { root } => {
                error_paths.push(root.clone());
                proof {
                    assert(texts_of(error_paths@) =~= texts_of(old_errors).push(root@));
                }
            },
        }
        i = i + 1;
    }
    proof {
        assert(events@.subrange(0, events@.len() as int) =~= events@);
    }
    if error_paths.len() > 0 {
        let ghost failures = texts_of(error_paths@);
        let mut joined = String::new();
        let mut k: usize = 0;
        proof {
            assert(failures.subrange(0, 0) =~= Seq::<Seq<char>>::empty());
        }
        while k < error_paths.len()
            invariant
                k <= error_paths.len(),
                failures == texts_of(error_paths@),
                joined@ == join_with(failures.subrange(0, k as int), ", "@),
            decreases error_paths.len() - k,
        {
            proof {
                let next = failures.subrange(0, k + 1);
                assert(next.drop_last() =~= failures.subrange(0, k as int));
                assert(next.last() == error_paths@[k as int]@);
                if k == 0 {
                    assert(Seq::<char>::empty() + error_paths@[0]@ =~= error_paths@[0]@);
                }
            }
            if k > 0 {
                joined.append(", ");
            }
            joined.append(error_paths[k].as_str());
            k = k + 1;
        }
        proof {
            assert(failures.subrange(0, failures.len() as int) =~= failures);
        }
        let mut message = String::from_str("errors occurred while processing files: ");
        message.append(joined.as_str());
        Err(message)
    } else {
        Ok(files)
    }
}

} // verus!
