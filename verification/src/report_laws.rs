//! What a pull, a sync and an import report, step by step.

use crate::annotations::SealedText;
use crate::engine::{comma_list, nothing_reconciled, pull_told, ReconcileResult};
use crate::import::NormalizedImport;
use crate::importing::{
    after_pulled, after_read, after_sealed, after_staged, all_candidates, candidate_keys, sealable,
    wanted_seals, ImportRun, ImportStep,
};
use crate::json::texts_view;
use crate::merge::{merge_time, seal_wanted, selected, CandidateV, SelectionV, ServerRowV};
use crate::mirror::Mirror;
use crate::pull::{superseded_view, PullResult};
use crate::session::{after_pull, after_reconcile, sync_reported, Goal, Session, SessionStep};
use crate::types::{ImportSummary, PullSummary, SyncError};
use vstd::prelude::*;

verus! {

/// Whether a pull is told in full: its counts, the edits that it superseded, in order, and what its
/// reconciliation did.
pub open spec fn tells_pull(summary: PullSummary, pulled: PullResult, r: ReconcileResult) -> bool {
    &&& pulled.pulled <= u32::MAX ==> summary.pulled == pulled.pulled
    &&& pulled.merged <= u32::MAX ==> summary.merged == pulled.merged
    &&& pulled.skipped_tombstones <= u32::MAX ==> summary.skipped_tombstones
        == pulled.skipped_tombstones
    &&& summary.superseded@.len() == pulled.superseded@.len()
    &&& forall|i: int|
        0 <= i < pulled.superseded@.len() ==> {
            let told = #[trigger] summary.superseded@[i];
            let edit = pulled.superseded@[i];
            &&& told.table@ == edit.table@
            &&& told.record_id@ == edit.record_id@
            &&& told.discarded_updated_at == edit.discarded_updated_at
            &&& told.winning_updated_at == edit.winning_updated_at
        }
    &&& r.books_backfilled <= u32::MAX ==> summary.reconcile.books_backfilled == r.books_backfilled
    &&& r.notes_rehomed <= u32::MAX ==> summary.reconcile.notes_rehomed == r.notes_rehomed
    &&& r.notes_detached <= u32::MAX ==> summary.reconcile.notes_detached == r.notes_detached
    &&& r.ideas_created <= u32::MAX ==> summary.reconcile.ideas_created == r.ideas_created
    &&& r.dupes_collapsed <= u32::MAX ==> summary.reconcile.dupes_collapsed == r.dupes_collapsed
    &&& r.signals_retired <= u32::MAX ==> summary.reconcile.signals_retired == r.signals_retired
    &&& r.covers_resolved <= u32::MAX ==> summary.reconcile.covers_resolved == r.covers_resolved
}

/// Whether a reconciliation did nothing.
pub open spec fn did_nothing(r: ReconcileResult) -> bool {
    &&& r.books_backfilled == 0 && r.notes_rehomed == 0 && r.notes_detached == 0
    &&& r.ideas_created == 0 && r.dupes_collapsed == 0
    &&& r.signals_retired == 0 && r.covers_resolved == 0
}

/// A report of a pull tells it in full.
pub proof fn law_pull_is_told_in_full(summary: PullSummary, pulled: PullResult, r: ReconcileResult)
    requires
        pull_told(summary, pulled, r),
    ensures
        tells_pull(summary, pulled, r),
        did_nothing(nothing_reconciled()),
{
    let told = superseded_view(summary.superseded@);
    let held = superseded_view(pulled.superseded@);
    assert(told.len() == summary.superseded@.len());
    assert(held.len() == pulled.superseded@.len());
    assert forall|i: int| 0 <= i < pulled.superseded@.len() implies {
        let told = #[trigger] summary.superseded@[i];
        let edit = pulled.superseded@[i];
        &&& told.table@ == edit.table@
        &&& told.record_id@ == edit.record_id@
        &&& told.discarded_updated_at == edit.discarded_updated_at
        &&& told.winning_updated_at == edit.winning_updated_at
    } by {
        assert(told[i] == summary.superseded@[i]@);
        assert(held[i] == pulled.superseded@[i]@);
    }
}

/// Whether a step is a failure of the pull or the flush for this reason.
pub open spec fn fails(step: SessionStep, reason: Seq<char>) -> bool {
    step matches SessionStep::Failed(SyncError::Flush(m)) && m@ == reason
}

/// What follows a pull. A sync over a pull that missed a table fails and names the tables that were
/// missed. A pull that missed none is reconciled, if the token names a user, for that user. Any other
/// is over: it fails if every table was missed, and is told in full, with nothing reconciled, if not.
pub proof fn law_what_follows_a_pull(
    goal: Goal,
    user: Result<String, String>,
    tables: usize,
    pulled: PullResult,
    next: Session,
    step: SessionStep,
)
    requires
        after_pull(goal, user, tables, pulled, next, step),
    ensures
        ({
            let missed = pulled.failed_tables@.len();
            if missed > 0 && goal == Goal::Sync {
                next is Over && fails(
                    step,
                    "pull failed for "@ + comma_list(texts_view(pulled.failed_tables@))
                        + " — aborting flush so a stale edit can't re-push over a newer server row (SUR-736); retry sync"@,
                )
            } else if missed == 0 && user is Ok {
                &&& step matches SessionStep::Reconcile(who) && who@ == user->Ok_0@
                &&& next matches Session::Reconciling { goal: g, user: u, tables: t, pulled: p } && g
                    == goal && u@ == user->Ok_0@ && t == tables && p == pulled
            } else {
                &&& next is Over
                &&& if missed == tables {
                    fails(
                        step,
                        "pull failed for all tables: "@ + comma_list(
                            texts_view(pulled.failed_tables@),
                        ),
                    )
                } else {
                    step matches SessionStep::Pulled(summary) && tells_pull(
                        summary,
                        pulled,
                        nothing_reconciled(),
                    )
                }
            }
        }),
{
    if let SessionStep::Pulled(summary) = step {
        if pull_told(summary, pulled, nothing_reconciled()) {
            law_pull_is_told_in_full(summary, pulled, nothing_reconciled());
        }
    }
}

/// What follows a reconciliation: a pull is told in full with what it did, which is nothing where it
/// failed; a sync goes on to push the queue for the same user.
pub proof fn law_what_follows_a_reconciliation(
    goal: Goal,
    user: String,
    tables: usize,
    pulled: PullResult,
    outcome: Option<ReconcileResult>,
    next: Session,
    step: SessionStep,
)
    requires
        after_reconcile(goal, user, tables, pulled, outcome, next, step),
        pulled.failed_tables@.len() == 0,
        tables > 0,
    ensures
        match goal {
            Goal::Pull => {
                &&& next is Over
                &&& step matches SessionStep::Pulled(summary) && exists|did: ReconcileResult|
                    (outcome matches Some(r) ==> did == r) && (outcome is None ==> did_nothing(
                        did,
                    )) && #[trigger] tells_pull(summary, pulled, did)
            },
            Goal::Sync => {
                &&& step matches SessionStep::Flush(who) && who@ == user@
                &&& next matches Session::Flushing { user: u, pulled: p, reconciled } && u@ == user@
                    && p == pulled && (outcome matches Some(r) ==> reconciled == r) && (
                outcome is None ==> did_nothing(reconciled))
            },
        },
{
    let did = match outcome {
        Some(r) => r,
        None => nothing_reconciled(),
    };
    if let SessionStep::Pulled(summary) = step {
        if pull_told(summary, pulled, did) {
            law_pull_is_told_in_full(summary, pulled, did);
            assert(tells_pull(summary, pulled, did));
        }
    }
}

/// A sync that went through tells the pull in full, and how many queued writes were pushed and how
/// many were left.
pub proof fn law_sync_is_told_in_full(
    step: SessionStep,
    pulled: PullResult,
    reconciled: ReconcileResult,
    pushed: usize,
    left: usize,
)
    requires
        sync_reported(step, pulled, reconciled, pushed, left),
    ensures
        step matches SessionStep::Synced(summary) && {
            &&& tells_pull(summary.pull, pulled, reconciled)
            &&& pushed <= u32::MAX ==> summary.flush.pushed == pushed
            &&& left <= u32::MAX ==> summary.flush.still_queued == left
        },
{
    if let SessionStep::Synced(summary) = step {
        law_pull_is_told_in_full(summary.pull, pulled, reconciled);
    }
}

/// Names are listed in order with a comma and a blank between them, whichever way the list is put
/// together.
pub proof fn law_name_lists(a: Seq<Seq<char>>, b: Seq<Seq<char>>, name: Seq<char>)
    ensures
        comma_list(Seq::empty()) == Seq::<char>::empty(),
        comma_list(seq![name]) == name,
        a.len() > 0 && b.len() > 0 ==> comma_list(a + b) == comma_list(a) + ", "@ + comma_list(b),
    decreases b.len(),
{
    if a.len() > 0 && b.len() > 0 {
        let rest = b.drop_last();
        assert((a + b).drop_last() =~= a + rest);
        assert((a + b).last() == b.last());
        if b.len() == 1 {
            assert(a + rest =~= a);
            assert(b[0] == b.last());
        } else {
            law_name_lists(a, rest, name);
            assert(comma_list(a + b) =~= comma_list(a) + ", "@ + comma_list(b));
        }
    }
}

/// An import goes no further over a pull that failed or missed a table.
pub proof fn law_import_needs_a_clean_pull(
    import: NormalizedImport,
    now: i64,
    pulled: Option<PullResult>,
    next: ImportRun,
    step: ImportStep,
)
    requires
        after_pulled(import, now, pulled, next, step),
    ensures
        (pulled is None || pulled->Some_0.failed_tables@.len() > 0) <==> next is Over,
        next is Over ==> step matches ImportStep::Failed(SyncError::Flush(_)),
        step is Fetch || step is Read || step is Failed,
{
}

/// The local rows that an import asks for are those of its candidates, in order.
pub proof fn law_import_reads_its_candidates(candidates: Seq<CandidateV>)
    ensures
        candidate_keys(candidates).len() == candidates.len(),
        forall|i: int|
            0 <= i < candidates.len() ==> #[trigger] candidate_keys(candidates)[i] == (
                candidates[i].table,
                candidates[i].row.primary_key,
            ),
{
}

/// What follows the local rows. Without them the import fails. Where nothing is newer it is done with
/// nothing imported. Otherwise the texts of the newer rows are sealed, each wanted in its place.
pub proof fn law_what_follows_the_local_rows(
    import: NormalizedImport,
    now: i64,
    known: Seq<ServerRowV>,
    local: Option<Mirror>,
    next: ImportRun,
    step: ImportStep,
)
    requires
        after_read(import, now, known, local, next, step),
    ensures
        local is None ==> next is Over && step matches ImportStep::Failed(SyncError::Store(_)),
        local matches Some(mirror) ==> (selected(
            all_candidates(import),
            mirror.rows@,
            known,
        ) matches Ok(want) ==> {
            &&& want.accepted.len() == 0 ==> next is Over && (step matches ImportStep::Done(summary)
                && tells_import(summary, import.schema_version, want))
            &&& step is Seal ==> {
                &&& want.accepted.len() > 0
                &&& next matches ImportRun::Sealing { import: i, selection, time } && i == import
                    && selection@ == want && merge_time(want, now) == Ok::<Option<i64>, ()>(
                    Some(time),
                )
                &&& step->Seal_0@.len() == want.accepted.len()
                &&& forall|k: int|
                    0 <= k < want.accepted.len() ==> match (
                        #[trigger] step->Seal_0@[k],
                        seal_wanted(all_candidates(import)[want.accepted[k] as int]),
                    ) {
                        (Some(request), Ok(Some(wanted))) => request@ == wanted,
                        (None, Ok(None)) => true,
                        _ => false,
                    }
            }
        }),
{
    if let Some(mirror) = local {
        if let Ok(want) = selected(all_candidates(import), mirror.rows@, known) {
            if let ImportStep::Seal(wants) = step {
                let all = crate::importing::wants_view(wants@);
                let candidates = all_candidates(import);
                assert(sealable(candidates, want.accepted));
                assert(all == wanted_seals(candidates, want.accepted));
                assert(all.len() == wants@.len());
                assert forall|k: int| 0 <= k < want.accepted.len() implies match (
                    #[trigger] wants@[k],
                    seal_wanted(candidates[want.accepted[k] as int]),
                ) {
                    (Some(request), Ok(Some(wanted))) => request@ == wanted,
                    (None, Ok(None)) => true,
                    _ => false,
                } by {
                    assert(all[k] == match wants@[k] {
                        Some(r) => Some(r@),
                        None => None,
                    });
                    assert(want.accepted[k] < candidates.len());
                }
            }
        }
    }
}

/// Whether a summary tells an import: its version, and how many rows of each table were merged and
/// passed over.
pub open spec fn tells_import(summary: ImportSummary, version: u32, selection: SelectionV) -> bool {
    &&& summary.schema_version == version
    &&& summary.imported == selection.imported
    &&& summary.skipped_stale == selection.skipped_stale
}

/// An import that was staged is done, and tells what was selected; one that could not be staged
/// fails.
pub proof fn law_staged_import_is_told(
    import: NormalizedImport,
    selection: SelectionV,
    time: i64,
    seals: Seq<Option<SealedText>>,
    staging: ImportRun,
    stage: ImportStep,
    staged: bool,
    next: ImportRun,
    step: ImportStep,
)
    requires
        after_sealed(import, selection, time, seals, staging, stage),
        staging is Staging,
        after_staged(staging->summary, staged, next, step),
    ensures
        stage matches ImportStep::Stage(_, when) && when == time,
        next is Over,
        staged ==> (step matches ImportStep::Done(summary) && tells_import(
            summary,
            import.schema_version,
            selection,
        )),
        !staged ==> step matches ImportStep::Failed(SyncError::Store(_)),
{
}

} // verus!
