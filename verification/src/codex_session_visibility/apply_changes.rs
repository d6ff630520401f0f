//! Writing the listed changes to the session files, in order, and putting
//! back what was written.
use vstd::prelude::*;

use crate::codex_session_visibility::session_files::{
    change_applies, first_line_replaced, first_line_split, plan_first_line_rewrite,
    restored_content, SessionChange,
};
use crate::error::AQBotError;

verus! {

/// What writing one listed change did: the file's content as read (or the
/// error met reading it), and, when the change still applied to it, what
/// writing its new content gave.
pub struct ApplyStep {
    pub read: Result<Vec<u8>, AQBotError>,
    pub written: Option<Result<(), AQBotError>>,
}

/// A step that went through: the file was read, and it was written or
/// needed no writing.
pub open spec fn step_went_through(step: ApplyStep) -> bool {
    step.read is Ok && (step.written is None || written_ok(step.written))
}

/// The change was written.
pub open spec fn written_ok(written: Option<Result<(), AQBotError>>) -> bool {
    match written {
        Some(Ok(_)) => true,
        _ => false,
    }
}

/// The positions, among the first `n` steps, of the changes that were
/// written.
pub open spec fn written_changes(steps: Seq<ApplyStep>, n: int) -> Seq<usize>
    decreases n,
{
    if n <= 0 {
        Seq::empty()
    } else if written_ok(steps[n - 1].written) {
        written_changes(steps, n - 1).push((n - 1) as usize)
    } else {
        written_changes(steps, n - 1)
    }
}

/// The steps are those of writing `changes` in order, with `read` and
/// `write` on files by their position in the scan: each file was read, and
/// written with the change's new content exactly when the change still
/// applied to what was read.
pub open spec fn steps_follow<R: Fn(usize) -> Result<Vec<u8>, AQBotError>, W: Fn(usize, Vec<u8>) -> Result<(), AQBotError>>(
    changes: Seq<SessionChange>,
    steps: Seq<ApplyStep>,
    read: R,
    write: W,
) -> bool {
    &&& steps.len() <= changes.len()
    &&& forall|j: int|
        #![trigger steps[j]]
        0 <= j < steps.len() ==> {
            let change = changes[j];
            let step = steps[j];
            &&& read.ensures((change.file_index,), step.read)
            &&& match step.read {
                Err(_) => step.written is None,
                Ok(bytes) => if change_applies(change@, bytes@) {
                    step.written matches Some(w) && exists|content: Vec<u8>|
                        content@ == first_line_replaced(
                            change.updated_first_line@,
                            change.separator@,
                            bytes@,
                            change.offset as int,
                        ) && #[trigger] write.ensures((change.file_index, content), w)
                } else {
                    step.written is None
                },
            }
        }
}

/// What writing the listed changes did, through `steps`: they follow the
/// changes, the positions of the changes written were added to `applied`,
/// every step but the last went through, and the outcome is that of the
/// last step.
pub open spec fn applied_by<R: Fn(usize) -> Result<Vec<u8>, AQBotError>, W: Fn(usize, Vec<u8>) -> Result<(), AQBotError>>(
    changes: Seq<SessionChange>,
    steps: Seq<ApplyStep>,
    read: R,
    write: W,
    applied_before: Seq<usize>,
    applied_after: Seq<usize>,
    r: Result<(), AQBotError>,
) -> bool {
    &&& steps_follow(changes, steps, read, write)
    &&& applied_after == applied_before + written_changes(steps, steps.len() as int)
    &&& forall|j: int| 0 <= j < steps.len() - 1 ==> step_went_through(#[trigger] steps[j])
    &&& match r {
        Ok(()) => steps.len() == changes.len() && (steps.len() > 0 ==> step_went_through(steps.last())),
        Err(e) => steps.len() > 0 && (steps.last().read == Err::<Vec<u8>, AQBotError>(e)
            || steps.last().written == Some(Err::<(), AQBotError>(e))),
    }
}

/// Writes the listed changes that still apply, in order: each file is read
/// with `read` and, when its change still applies, written with `write`;
/// the positions of the changes written are added to `applied`. It stops at
/// the first error, of reading or of writing.
pub fn apply_session_changes<R: Fn(usize) -> Result<Vec<u8>, AQBotError>, W: Fn(usize, Vec<u8>) -> Result<(), AQBotError>>(
    changes: &Vec<SessionChange>,
    read: &R,
    write: &W,
    applied: &mut Vec<usize>,
) -> (r: Result<(), AQBotError>)
    requires
        forall|i: usize| read.requires((i,)),
        forall|i: usize, content: Vec<u8>| write.requires((i, content)),
    ensures
        exists|steps: Seq<ApplyStep>|
            #[trigger] applied_by(changes@, steps, *read, *write, old(applied)@, final(applied)@, r),
{
    let ghost start = applied@;
    let ghost mut steps: Seq<ApplyStep> = Seq::empty();
    let mut i: usize = 0;
    while i < changes.len()
        invariant
            i <= changes@.len(),
            forall|k: usize| read.requires((k,)),
            forall|k: usize, content: Vec<u8>| write.requires((k, content)),
            steps.len() == i,
            steps_follow(changes@, steps, *read, *write),
            start == old(applied)@,
            applied@ == start + written_changes(steps, i as int),
            forall|j: int| 0 <= j < steps.len() ==> step_went_through(#[trigger] steps[j]),
        decreases changes@.len() - i,
    {
        let change = &changes[i];
        let content = read(change.file_index);
        let ghost read_result = content;
        let ghost before = steps;
        match content {
            Err(e) => {
                proof {
                    steps = steps.push(ApplyStep { read: read_result, written: None });
                    assert(steps[i as int] == ApplyStep { read: read_result, written: None });
                    assert forall|j: int| 0 <= j < i implies #[trigger] steps[j] == before[j] by {}
                    assert(written_changes(steps, i + 1) == written_changes(steps, i as int));
                    lemma_written_prefix(before, steps, i as int);
                    assert(steps_follow(changes@, steps, *read, *write));
                    assert(applied@ == start + written_changes(steps, steps.len() as int));
                    assert(forall|j: int| 0 <= j < steps.len() - 1 ==> step_went_through(#[trigger] steps[j]));
                    assert(steps.last().read == Err::<Vec<u8>, AQBotError>(e));
                }
                let r = Err(e);
                assert(applied_by(changes@, steps, *read, *write, start, applied@, r));
                return r;
            },
            Ok(bytes) => {
                match plan_first_line_rewrite(change, bytes.as_slice()) {
                    None => {
                        proof {
                            steps = steps.push(ApplyStep { read: read_result, written: None });
                            assert(steps[i as int] == ApplyStep { read: read_result, written: None });
                            lemma_written_prefix(before, steps, i as int);
                            assert(written_changes(steps, i + 1) == written_changes(steps, i as int));
                            assert(step_went_through(steps[i as int]));
                            assert forall|j: int| 0 <= j < steps.len() implies step_went_through(#[trigger] steps[j]) by {
                                if j < i {
                                    assert(steps[j] == before[j]);
                                }
                            }
                        }
                    },
                    Some(new_content) => {
                        let ghost written_content = new_content;
                        let outcome = write(change.file_index, new_content);
                        let ghost write_result = outcome;
                        proof {
                            steps = steps.push(ApplyStep { read: read_result, written: Some(write_result) });
                            assert(steps[i as int] == ApplyStep { read: read_result, written: Some(write_result) });
                            lemma_written_prefix(before, steps, i as int);
                            assert(write.ensures((change.file_index, written_content), write_result));
                        }
                        match outcome {
                            Err(e) => {
                                proof {
                                    assert(written_changes(steps, i + 1) == written_changes(steps, i as int));
                                    assert(steps_follow(changes@, steps, *read, *write));
                                    assert(applied@ == start + written_changes(steps, steps.len() as int));
                                    assert(forall|j: int| 0 <= j < steps.len() - 1 ==> step_went_through(#[trigger] steps[j]));
                                    assert(steps.last().written == Some(Err::<(), AQBotError>(e)));
                                }
                                let r = Err(e);
                                assert(applied_by(changes@, steps, *read, *write, start, applied@, r));
                                return r;
                            },
                            Ok(()) => {
                                let ghost applied_before = applied@;
                                applied.push(i);
                                proof {
                                    assert(write_result is Ok);
                                    assert(written_ok(steps[i as int].written));
                                    assert(written_changes(steps, i + 1) == written_changes(steps, i as int).push(i));
                                    assert(applied@ =~= start + written_changes(steps, i + 1));
                                    assert(step_went_through(steps[i as int]));
                                    assert forall|j: int| 0 <= j < steps.len() implies step_went_through(#[trigger] steps[j]) by {
                                        if j < i {
                                            assert(steps[j] == before[j]);
                                        }
                                    }
                                }
                            },
                        }
                    },
                }
            },
        }
        i = i + 1;
    }
    let r = Ok(());
    assert(applied_by(changes@, steps, *read, *write, start, applied@, r));
    r
}

proof fn lemma_written_prefix(s: Seq<ApplyStep>, t: Seq<ApplyStep>, n: int)
    requires
        0 <= n <= s.len(),
        n <= t.len(),
        forall|j: int| 0 <= j < n ==> s[j] == t[j],
    ensures
        written_changes(s, n) == written_changes(t, n),
    decreases n,
{
    if n > 0 {
        lemma_written_prefix(s, t, n - 1);
    }
}

/// Putting back a change's original first line: when the file was read, it
/// was written with the original line and separator in front of what follows
/// its current first line.
pub open spec fn restore_attempted<W: Fn(usize, Vec<u8>) -> Result<(), AQBotError>>(
    change: SessionChange,
    read_result: Result<Vec<u8>, AQBotError>,
    write: W,
) -> bool {
    match read_result {
        Err(_) => true,
        Ok(bytes) => exists|content: Vec<u8>, w: Result<(), AQBotError>|
            content@ == first_line_replaced(
                change.original_first_line@,
                change.separator@,
                bytes@,
                first_line_split(bytes@).2,
            ) && #[trigger] write.ensures((change.file_index, content), w),
    }
}

/// The reads of a restore, one per written change, and what was done with
/// each.
pub open spec fn restored_by<R: Fn(usize) -> Result<Vec<u8>, AQBotError>, W: Fn(usize, Vec<u8>) -> Result<(), AQBotError>>(
    changes: Seq<SessionChange>,
    applied: Seq<usize>,
    reads: Seq<Result<Vec<u8>, AQBotError>>,
    read: R,
    write: W,
) -> bool {
    &&& reads.len() == applied.len()
    &&& forall|k: int|
        #![trigger reads[k]]
        0 <= k < reads.len() ==> {
            let change = changes[applied[k] as int];
            &&& read.ensures((change.file_index,), reads[k])
            &&& restore_attempted(change, reads[k], write)
        }
}

/// Puts back the original first lines of the written changes (positions in
/// `changes`, in the order given): each file is read with `read` and, when
/// it could be read, written with `write`; failures are passed over.
pub fn restore_applied_changes<R: Fn(usize) -> Result<Vec<u8>, AQBotError>, W: Fn(usize, Vec<u8>) -> Result<(), AQBotError>>(
    changes: &Vec<SessionChange>,
    applied: &Vec<usize>,
    read: &R,
    write: &W,
)
    requires
        forall|k: int| 0 <= k < applied@.len() ==> #[trigger] applied@[k] < changes@.len(),
        forall|i: usize| read.requires((i,)),
        forall|i: usize, content: Vec<u8>| write.requires((i, content)),
    ensures
        exists|reads: Seq<Result<Vec<u8>, AQBotError>>|
            #[trigger] restored_by(changes@, applied@, reads, *read, *write),
{
    let ghost mut reads: Seq<Result<Vec<u8>, AQBotError>> = Seq::empty();
    let mut k: usize = 0;
    while k < applied.len()
        invariant
            k <= applied@.len(),
            forall|m: int| 0 <= m < applied@.len() ==> #[trigger] applied@[m] < changes@.len(),
            forall|i: usize| read.requires((i,)),
            forall|i: usize, content: Vec<u8>| write.requires((i, content)),
            reads.len() == k,
            forall|m: int|
                #![trigger reads[m]]
                0 <= m < reads.len() ==> {
                    let change = changes@[applied@[m] as int];
                    &&& read.ensures((change.file_index,), reads[m])
                    &&& restore_attempted(change, reads[m], *write)
                },
        decreases applied@.len() - k,
    {
        let change = &changes[applied[k]];
        let content = read(change.file_index);
        let ghost read_result = content;
        let ghost before = reads;
        if let Ok(bytes) = content {
            let restored = restored_content(&change.original_first_line, &change.separator, bytes.as_slice());
            let ghost restored_bytes = restored;
            let outcome = write(change.file_index, restored);
            proof {
                assert(write.ensures((change.file_index, restored_bytes), outcome));
            }
        }
        proof {
            reads = reads.push(read_result);
            assert forall|m: int|
                #![trigger reads[m]]
                0 <= m < reads.len() implies {
                    let c = changes@[applied@[m] as int];
                    &&& read.ensures((c.file_index,), reads[m])
                    &&& restore_attempted(c, reads[m], *write)
                } by {
                if m < k {
                    assert(reads[m] == before[m]);
                }
            }
        }
        k = k + 1;
    }
    assert(restored_by(changes@, applied@, reads, *read, *write));
}

} // verus!
