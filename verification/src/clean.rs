use vstd::prelude::*;

verus! {

/// The file in the target directory that holds the project's build lock; a
/// clean leaves it in place.
pub const TARGET_LOCK_FILE_NAME: &'static str = ".bahn-target.lock";

/// One entry of the target directory, as reading the directory gave it.
#[derive(Debug, PartialEq, Eq)]
pub enum TargetEntry {
    /// Reading the entry failed.
    Unreadable,
    /// An entry: its file name (`None` when it is not valid UTF-8) and whether
    /// it is a directory (`None` when its type could not be inspected).
    Entry { file_name: Option<String>, is_dir: Option<bool> },
}

/// One step of cleaning the target directory, on the entry at the given index.
#[derive(Debug, Clone, Copy, PartialEq, Eq)]
pub enum CleanStep {
    /// Remove the directory and everything in it.
    RemoveDir(usize),
    /// Remove the file.
    RemoveFile(usize),
    /// Stop: the entry could not be read.
    FailRead(usize),
    /// Stop: the entry's type could not be inspected.
    FailInspect(usize),
}

/// Whether an entry's file name is that of the lock file.
pub open spec fn is_lock_file(file_name: Option<String>) -> bool {
    file_name matches Some(name) && name@ == TARGET_LOCK_FILE_NAME@
}

/// What cleaning does with entry `e` at index `i`: nothing for the lock file.
pub open spec fn step_for(e: TargetEntry, i: int) -> Option<CleanStep> {
    match e {
        TargetEntry::Unreadable => Some(CleanStep::FailRead(i as usize)),
        TargetEntry::Entry { file_name, is_dir } => if is_lock_file(file_name) {
            None
        } else {
            match is_dir {
                None => Some(CleanStep::FailInspect(i as usize)),
                Some(true) => Some(CleanStep::RemoveDir(i as usize)),
                Some(false) => Some(CleanStep::RemoveFile(i as usize)),
            }
        },
    }
}

/// Whether a step stops the clean.
pub open spec fn is_failure(step: CleanStep) -> bool {
    step is FailRead || step is FailInspect
}

/// The steps that clean the entries from index `i` on, in order; a failure is
/// the last step.
pub open spec fn clean_steps_from(es: Seq<TargetEntry>, i: int) -> Seq<CleanStep>
    decreases es.len() - i,
{
    if i < 0 || i >= es.len() {
        Seq::empty()
    } else {
        match step_for(es[i], i) {
            None => clean_steps_from(es, i + 1),
            Some(step) => if is_failure(step) {
                seq![step]
            } else {
                seq![step] + clean_steps_from(es, i + 1)
            },
        }
    }
}

/// The steps that clean a target directory with the given entries: every entry
/// but the lock file is removed, in order, until an entry cannot be read or
/// inspected.
pub open spec fn clean_steps(es: Seq<TargetEntry>) -> Seq<CleanStep> {
    clean_steps_from(es, 0)
}

/// Plans the cleaning of the target directory from its entries.
pub fn clean(entries: &Vec<TargetEntry>) -> (steps: Vec<CleanStep>)
    ensures
        steps@ == clean_steps(entries@),
{
    let lock = TARGET_LOCK_FILE_NAME.to_owned();
    let mut steps: Vec<CleanStep> = Vec::new();
    let n = entries.len();
    let mut i: usize = 0;
    while i < n
        invariant
            n == entries@.len(),
            i <= n,
            lock@ == TARGET_LOCK_FILE_NAME@,
            steps@ + clean_steps_from(entries@, i as int) == clean_steps(entries@),
        decreases n - i,
    {
        let ghost before = steps@;
        let step = match &entries[i] {
            TargetEntry::Unreadable => Some(CleanStep::FailRead(i)),
            TargetEntry::Entry { file_name, is_dir } => {
                let keep = match file_name {
                    Some(name) => *name == lock,
                    None => false,
                };
                if keep {
                    None
                } else {
                    match is_dir {
                        None => Some(CleanStep::FailInspect(i)),
                        Some(true) => Some(CleanStep::RemoveDir(i)),
                        Some(false) => Some(CleanStep::RemoveFile(i)),
                    }
                }
            },
        };
        assert(step == step_for(entries@[i as int], i as int));
        match step {
            None => {},
            Some(st) => {
                steps.push(st);
                match st {
                    CleanStep::FailRead(_) | CleanStep::FailInspect(_) => {
                        assert(steps@ =~= before + clean_steps_from(entries@, i as int));
                        assert(steps@ + Seq::<CleanStep>::empty() =~= steps@);
                        return steps;
                    },
                    _ => {},
                }
            },
        }
        assert(steps@ + clean_steps_from(entries@, i + 1) =~= before + clean_steps_from(
            entries@,
            i as int,
        ));
        i = i + 1;
    }
    assert(steps@ + Seq::<CleanStep>::empty() =~= steps@);
    steps
}

/// Whether a step removes the entry at index `j`.
pub open spec fn removes(step: CleanStep, j: int) -> bool {
    match step {
        CleanStep::RemoveDir(x) => x == j,
        CleanStep::RemoveFile(x) => x == j,
        _ => false,
    }
}

/// Cleaning never removes the lock file `.bahn-target.lock`, and only removes
/// entries that are in the directory.
pub proof fn law_lock_file_kept(es: Seq<TargetEntry>, i: int, k: int, j: int)
    requires
        0 <= i,
        es.len() <= usize::MAX,
        0 <= k < clean_steps_from(es, i).len(),
        0 <= j,
        removes(clean_steps_from(es, i)[k], j),
    ensures
        i <= j < es.len(),
        es[j] matches TargetEntry::Entry { file_name, .. } && !is_lock_file(file_name),
        es[j] matches TargetEntry::Entry { file_name, .. } && !(file_name matches Some(name) && name@
            == ".bahn-target.lock"@),
    decreases es.len() - i,
{
    lemma_lock_name();
    if i < es.len() {
        match step_for(es[i], i) {
            None => law_lock_file_kept(es, i + 1, k, j),
            Some(step) => {
                if k > 0 {
                    assert(clean_steps_from(es, i)[k] == clean_steps_from(es, i + 1)[k - 1]);
                    law_lock_file_kept(es, i + 1, k - 1, j);
                }
            },
        }
    }
}

/// The lock file's name, spelled out.
proof fn lemma_lock_name()
    ensures
        TARGET_LOCK_FILE_NAME@ == ".bahn-target.lock"@,
{
}

/// When every entry can be read and inspected, cleaning removes every entry
/// whose name is not `.bahn-target.lock`.
pub proof fn law_everything_else_removed(es: Seq<TargetEntry>, i: int, j: int)
    requires
        0 <= i <= j < es.len(),
        es.len() <= usize::MAX,
        forall|m: int| 0 <= m < es.len() ==> (#[trigger] es[m] matches TargetEntry::Entry { is_dir, .. } && is_dir is Some),
        es[j] matches TargetEntry::Entry { file_name, .. } && !(file_name matches Some(name) && name@
            == ".bahn-target.lock"@),
    ensures
        exists|k: int| 0 <= k < clean_steps_from(es, i).len() && removes(#[trigger] clean_steps_from(es, i)[k], j),
    decreases j - i,
{
    lemma_lock_name();
    assert(es[i] matches TargetEntry::Entry { is_dir, .. } && is_dir is Some);
    if i == j {
        assert(removes(clean_steps_from(es, i)[0], j));
    } else {
        law_everything_else_removed(es, i + 1, j);
        let k = choose|k: int| 0 <= k < clean_steps_from(es, i + 1).len() && removes(#[trigger] clean_steps_from(es, i + 1)[k], j);
        match step_for(es[i], i) {
            None => {
                assert(clean_steps_from(es, i) == clean_steps_from(es, i + 1));
                assert(removes(clean_steps_from(es, i)[k], j));
            },
            Some(step) => {
                assert(!is_failure(step));
                assert(clean_steps_from(es, i) == seq![step] + clean_steps_from(es, i + 1));
                assert(clean_steps_from(es, i)[k + 1] == clean_steps_from(es, i + 1)[k]);
                assert(removes(clean_steps_from(es, i)[k + 1], j));
            },
        }
    }
}

/// Cleaning stops at a failure: a step that reports an unreadable or
/// uninspectable entry is the last step.
pub proof fn law_failure_is_last(es: Seq<TargetEntry>, i: int, k: int)
    requires
        0 <= i,
        0 <= k < clean_steps_from(es, i).len(),
        clean_steps_from(es, i)[k] is FailRead || clean_steps_from(es, i)[k] is FailInspect,
    ensures
        k == clean_steps_from(es, i).len() - 1,
    decreases es.len() - i,
{
    if i < es.len() {
        match step_for(es[i], i) {
            None => law_failure_is_last(es, i + 1, k),
            Some(step) => {
                if !is_failure(step) {
                    if k == 0 {
                        assert(clean_steps_from(es, i)[0] == step);
                    } else {
                        assert(clean_steps_from(es, i)[k] == clean_steps_from(es, i + 1)[k - 1]);
                        law_failure_is_last(es, i + 1, k - 1);
                    }
                }
            },
        }
    }
}

} // verus!
