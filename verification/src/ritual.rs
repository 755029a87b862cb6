//! The ritual: the stages that turn a spirit directory into a `.spirit` file,
//! in the order they run. Each stage passes or fails; the first failure ends
//! the ritual, and the spirit file is made only when every stage has passed.

use vstd::prelude::*;
use crate::text::concat_text;

verus! {

/// A stage of the ritual.
#[derive(PartialEq, Eq, Structural, Clone, Copy, Debug)]
pub enum Stage {
    /// The source is a directory, and its name is known.
    CheckDirectory,
    /// The directory has the structure of a spirit directory.
    Validate,
    /// `meta.json` describes the spirit, and the files it names are there.
    Parse,
    /// No file `<name>.spirit` is there yet.
    CheckOutput,
    /// The archive's entries have been planned from the directory as it is,
    /// before the output file exists, so that the archive never holds itself.
    Plan,
    /// `<name>.spirit` has been created.
    CreateOutput,
    /// The planned entries have been written into the archive, and the whole
    /// directory could be walked.
    Compress,
    /// The archive has been finished.
    Finalize,
    /// The spirit file is made.
    Made,
    /// A stage failed.
    Failed,
}

/// The stage after `stage`, where it passed.
pub open spec fn following(stage: Stage) -> Stage {
    match stage {
        Stage::CheckDirectory => Stage::Validate,
        Stage::Validate => Stage::Parse,
        Stage::Parse => Stage::CheckOutput,
        Stage::CheckOutput => Stage::Plan,
        Stage::Plan => Stage::CreateOutput,
        Stage::CreateOutput => Stage::Compress,
        Stage::Compress => Stage::Finalize,
        Stage::Finalize => Stage::Made,
        Stage::Made => Stage::Made,
        Stage::Failed => Stage::Failed,
    }
}

/// Whether the ritual has ended.
pub open spec fn is_final(stage: Stage) -> bool {
    stage == Stage::Made || stage == Stage::Failed
}

/// The stage that follows `stage` once it has `passed` or not.
pub open spec fn advance_spec(stage: Stage, passed: bool) -> Stage {
    if is_final(stage) {
        stage
    } else if passed {
        following(stage)
    } else {
        Stage::Failed
    }
}

/// The stage that follows `stage` once it has `passed` or not.
pub fn advance(stage: Stage, passed: bool) -> (res: Stage)
    ensures
        res == advance_spec(stage, passed),
{
    match stage {
        Stage::Made => Stage::Made,
        Stage::Failed => Stage::Failed,
        _ => if !passed {
            Stage::Failed
        } else {
            match stage {
                Stage::CheckDirectory => Stage::Validate,
                Stage::Validate => Stage::Parse,
                Stage::Parse => Stage::CheckOutput,
                Stage::CheckOutput => Stage::Plan,
                Stage::Plan => Stage::CreateOutput,
                Stage::CreateOutput => Stage::Compress,
                Stage::Compress => Stage::Finalize,
                _ => Stage::Made,
            }
        },
    }
}

/// The number of the task (out of 4) that is reported done when `stage`
/// passes, where passing it completes one.
pub open spec fn task_of_spec(stage: Stage) -> Option<u64> {
    match stage {
        Stage::CheckDirectory => Some(1),
        Stage::Validate => Some(2),
        Stage::Parse => Some(3),
        Stage::Finalize => Some(4),
        _ => None,
    }
}

/// The number of the task that is reported done when `stage` passes.
pub fn task_of(stage: Stage) -> (res: Option<u64>)
    ensures
        res == task_of_spec(stage),
{
    match stage {
        Stage::CheckDirectory => Some(1),
        Stage::Validate => Some(2),
        Stage::Parse => Some(3),
        Stage::Finalize => Some(4),
        _ => None,
    }
}

/// The stage reached from `stage` when the stages report `results`, in order.
pub open spec fn run_from(stage: Stage, results: Seq<bool>) -> Stage
    decreases results.len(),
{
    if results.len() == 0 {
        stage
    } else {
        run_from(advance_spec(stage, results[0]), results.drop_first())
    }
}

/// The number of stages that the ritual runs through before the spirit is made.
pub open spec fn stage_count() -> nat {
    8
}

proof fn lemma_failed_stays(results: Seq<bool>)
    ensures
        run_from(Stage::Failed, results) == Stage::Failed,
    decreases results.len(),
{
    if results.len() > 0 {
        lemma_failed_stays(results.drop_first());
    }
}

/// The spirit file is made exactly when the eight stages all pass, in order:
/// starting from the directory check, the ritual reaches `Made` after the
/// results `results` (one per stage run) if and only if there are at least
/// eight of them and the first eight are all passes.
pub proof fn law_made_only_when_all_pass(results: Seq<bool>)
    ensures
        (run_from(Stage::CheckDirectory, results) == Stage::Made) <==> (results.len()
            >= stage_count() && forall|i: int| 0 <= i < stage_count() ==> #[trigger] results[i]),
{
    lemma_run_prefix(results, 0);
}

/// Stepping through the stages from the `k`-th one.
proof fn lemma_run_prefix(results: Seq<bool>, k: int)
    requires
        0 <= k <= 8,
    ensures
        (run_from(stage_at(k), results) == Stage::Made) <==> (results.len() >= 8 - k && forall|i: int|
            0 <= i < 8 - k ==> #[trigger] results[i]),
    decreases 8 - k, results.len(),
{
    if k == 8 {
        lemma_made_stays(results);
    } else if results.len() == 0 {
    } else {
        let rest = results.drop_first();
        if results[0] {
            assert(advance_spec(stage_at(k), true) == stage_at(k + 1));
            lemma_run_prefix(rest, k + 1);
            if results.len() >= 8 - k && forall|i: int| 0 <= i < 8 - k ==> #[trigger] results[i] {
                assert forall|i: int| 0 <= i < 8 - (k + 1) implies #[trigger] rest[i] by {
                    assert(rest[i] == results[i + 1]);
                }
            }
            if rest.len() >= 8 - (k + 1) && forall|i: int| 0 <= i < 8 - (k + 1) ==> #[trigger] rest[i] {
                assert forall|i: int| 0 <= i < 8 - k implies #[trigger] results[i] by {
                    if i > 0 {
                        assert(results[i] == rest[i - 1]);
                    }
                }
            }
        } else {
            lemma_failed_stays(rest);
        }
    }
}

proof fn lemma_made_stays(results: Seq<bool>)
    ensures
        run_from(Stage::Made, results) == Stage::Made,
    decreases results.len(),
{
    if results.len() > 0 {
        lemma_made_stays(results.drop_first());
    }
}

/// The `k`-th stage of the ritual, counting from 0; `Made` after the last.
pub open spec fn stage_at(k: int) -> Stage {
    if k <= 0 {
        Stage::CheckDirectory
    } else if k == 1 {
        Stage::Validate
    } else if k == 2 {
        Stage::Parse
    } else if k == 3 {
        Stage::CheckOutput
    } else if k == 4 {
        Stage::Plan
    } else if k == 5 {
        Stage::CreateOutput
    } else if k == 6 {
        Stage::Compress
    } else if k == 7 {
        Stage::Finalize
    } else {
        Stage::Made
    }
}

/// The file that the spirit named `name` is written to: `<name>.spirit`.
pub fn spirit_file_name(name: &str) -> (res: String)
    ensures
        res@ == name@ + ".spirit"@,
{
    concat_text(name, ".spirit")
}

} // verus!
