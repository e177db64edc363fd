//! The totals of a run over many files, and the exit code they stand for.
//!
//! Each file is read, formatted or checked, and written by the caller, in
//! whatever order and on whatever threads; what comes back for each file is
//! counted here.

use crate::config::Config;
use crate::find::texts_of;
use crate::format::CheckResult;
use crate::paths::{relative_path, relative_to};
use vstd::prelude::*;

verus! {

/// Totals of one formatting or checking run.
pub struct FormatResult {
    /// Number of files that were processed.
    pub total_files: usize,
    /// Number of files that could not be read or written.
    pub error_count: usize,
    /// Number of files that were found not to be formatted (check mode only).
    pub unformatted_count: usize,
}

impl FormatResult {
    /// The process exit code that stands for these totals: 2 when any file
    /// failed, else 1 when any file needs formatting, else 0.
    pub open spec fn spec_exit_code(&self) -> u8 {
        if self.error_count > 0 {
            2u8
        } else if self.unformatted_count > 0 {
            1u8
        } else {
            0u8
        }
    }

    /// Returns the exit code for this result. Errors outrank unformatted files.
    #[verifier::when_used_as_spec(spec_exit_code)]
    pub fn exit_code(&self) -> (code: u8)
        ensures
            code == self.spec_exit_code(),
    {
        if self.error_count > 0 {
            2
        } else if self.unformatted_count > 0 {
            1
        } else {
            0
        }
    }
}

/// How many of `outcomes` are failures.
pub open spec fn count_failed<T>(outcomes: Seq<Result<T, String>>) -> nat
    decreases outcomes.len(),
{
    if outcomes.len() == 0 {
        0
    } else {
        count_failed(outcomes.drop_last()) + if outcomes.last() is Err {
            1nat
        } else {
            0nat
        }
    }
}

/// How many of `outcomes` say that a file needs formatting.
pub open spec fn count_unformatted(outcomes: Seq<Result<CheckResult, String>>) -> nat
    decreases outcomes.len(),
{
    if outcomes.len() == 0 {
        0
    } else {
        count_unformatted(outcomes.drop_last()) + if outcomes.last() == Ok::<CheckResult, String>(
            CheckResult::NeedsFormatting,
        ) {
            1nat
        } else {
            0nat
        }
    }
}

/// The number of failures among `outcomes`.
fn failed_among<T>(outcomes: &Vec<Result<T, String>>) -> (count: usize)
    ensures
        count == count_failed(outcomes@),
{
    let mut count: usize = 0;
    let mut i: usize = 0;
    proof {
        assert(outcomes@.subrange(0, 0) =~= Seq::<Result<T, String>>::empty());
    }
    while i < outcomes.len()
        invariant
            i <= outcomes.len(),
            count <= i,
            count == count_failed(outcomes@.subrange(0, i as int)),
        decreases outcomes.len() - i,
    {
        proof {
            let next = outcomes@.subrange(0, i + 1);
            assert(next.drop_last() =~= outcomes@.subrange(0, i as int));
            assert(next.last() == outcomes@[i as int]);
        }
        if outcomes[i].is_err() {
            count = count + 1;
        }
        i = i + 1;
    }
    proof {
        assert(outcomes@.subrange(0, outcomes@.len() as int) =~= outcomes@);
    }
    count
}

/// The totals of a format run, from what came back for each file: its
/// outcome, or the text of the error that stopped it. Every file counts as
/// processed, each error is counted, and no file counts as unformatted.
pub fn run_format(outcomes: &Vec<Result<crate::format::FormatResult, String>>) -> (totals:
    FormatResult)
    ensures
        totals.total_files == outcomes@.len(),
        totals.error_count == count_failed(outcomes@),
        totals.unformatted_count == 0,
{
    FormatResult {
        total_files: outcomes.len(),
        error_count: failed_among(outcomes),
        unformatted_count: 0,
    }
}

/// The totals of a check run, from what came back for each file: its
/// outcome, or the text of the error that stopped it. Every file counts as
/// processed, each error is counted, and so is each file that needs
/// formatting; files that are formatted or were skipped add to neither.
pub fn run_check(outcomes: &Vec<Result<CheckResult, String>>) -> (totals: FormatResult)
    ensures
        totals.total_files == outcomes@.len(),
        totals.error_count == count_failed(outcomes@),
        totals.unformatted_count == count_unformatted(outcomes@),
{
    let mut unformatted: usize = 0;
    let mut i: usize = 0;
    proof {
        assert(outcomes@.subrange(0, 0) =~= Seq::<Result<CheckResult, String>>::empty());
    }
    while i < outcomes.len()
        invariant
            i <= outcomes.len(),
            unformatted <= i,
            unformatted == count_unformatted(outcomes@.subrange(0, i as int)),
        decreases outcomes.len() - i,
    {
        proof {
            let next = outcomes@.subrange(0, i + 1);
            assert(next.drop_last() =~= outcomes@.subrange(0, i as int));
            assert(next.last() == outcomes@[i as int]);
        }
        match &outcomes[i] {
            Ok(CheckResult::NeedsFormatting) => {
                unformatted = unformatted + 1;
            },
            _ => {},
        }
        i = i + 1;
    }
    proof {
        assert(outcomes@.subrange(0, outcomes@.len() as int) =~= outcomes@);
    }
    FormatResult {
        total_files: outcomes.len(),
        error_count: failed_among(outcomes),
        unformatted_count: unformatted,
    }
}

/// The paths among `files` that `config` does not exclude, in order. A path
/// is matched against the exclude patterns as seen from `root`.
pub open spec fn included(config: Config, root: Seq<char>, files: Seq<Seq<char>>) -> Seq<Seq<char>>
    decreases files.len(),
{
    if files.len() == 0 {
        Seq::empty()
    } else if config.excludes(relative_to(files.last(), root)) {
        included(config, root, files.drop_last())
    } else {
        included(config, root, files.drop_last()).push(files.last())
    }
}

/// The files to process: those of `files` that the exclude list of `config`
/// leaves in, in their order. Each path is matched relative to `root`, the
/// directory that the exclude list was loaded from; a path that does not lie
/// below `root` is matched as it is.
pub fn files_to_process(config: &Config, root: &str, files: &Vec<String>) -> (kept: Vec<String>)
    ensures
        texts_of(kept@) == included(*config, root@, texts_of(files@)),
{
    let ghost all = texts_of(files@);
    let mut kept: Vec<String> = Vec::new();
    let mut i: usize = 0;
    proof {
        assert(all.subrange(0, 0) =~= Seq::<Seq<char>>::empty());
        assert(texts_of(kept@) =~= Seq::<Seq<char>>::empty());
    }
    while i < files.len()
        invariant
            i <= files.len(),
            all == texts_of(files@),
            texts_of(kept@) == included(*config, root@, all.subrange(0, i as int)),
        decreases files.len() - i,
    {
        let ghost before = kept@;
        proof {
            let next = all.subrange(0, i + 1);
            assert(next.drop_last() =~= all.subrange(0, i as int));
            assert(next.last() == files@[i as int]@);
        }
        if !config.is_excluded(relative_path(files[i].as_str(), root)) {
            kept.push(files[i].clone());
            proof {
                assert(texts_of(kept@) =~= texts_of(before).push(files@[i as int]@));
            }
        }
        i = i + 1;
    }
    proof {
        assert(all.subrange(0, all.len() as int) =~= all);
    }
    kept
}

} // verus!
