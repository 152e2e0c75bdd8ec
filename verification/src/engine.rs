//! The engine's decisions around a sync: who asks, what a pull that failed in part allows, and
//! what the host is told.

use crate::http::{jwt_user, user_id_from_jwt};
use crate::json::texts_view;
use crate::pull::{superseded_view, PullResult};
use crate::text::joined;
use crate::types::{
    flush_error, FlushSummary, PullSummary, ReconcileSummary, SyncError, SyncSummary,
};
use vstd::prelude::*;
use vstd::string::StringExecFns;

verus! {

/// What is said where a token is missing.
pub open spec fn token_missing(purpose: Seq<char>) -> Seq<char> {
    "no access token set — call set_access_token before "@ + purpose
}

/// The user's token, or an error where there is none.
pub fn require_token<'a>(token: Option<&'a str>, purpose: &str) -> (result: Result<
    &'a str,
    SyncError,
>)
    ensures
        match (result, token) {
            (Ok(t), Some(own)) => t@ == own@,
            (Err(e), None) => flush_error(e, token_missing(purpose@)),
            _ => false,
        },
{
    match token {
        Some(t) => Ok(t),
        None => Err(
            SyncError::flush(
                joined("no access token set — call set_access_token before ", purpose).as_str(),
            ),
        ),
    }
}

/// The user that a token was read to name, or an error with the reason why none was.
pub fn user_of(read: Result<String, String>) -> (result: Result<String, SyncError>)
    ensures
        match (result, read) {
            (Ok(user), Ok(id)) => user@ == id@,
            (Err(e), Err(reason)) => flush_error(e, "bad access token: "@ + reason@),
            _ => false,
        },
{
    match read {
        Ok(id) => Ok(id),
        Err(reason) => Err(
            SyncError::flush(joined("bad access token: ", reason.as_str()).as_str()),
        ),
    }
}

/// The user who asks, or an error: there is no token, or it names nobody.
pub fn require_user(token: Option<&str>, purpose: &str) -> (result: Result<String, SyncError>)
    ensures
        match token {
            None => match result {
                Ok(_) => false,
                Err(e) => flush_error(e, token_missing(purpose@)),
            },
            Some(jwt) => match (result, jwt_user(jwt@)) {
                (Ok(user), Ok(want)) => user@ == want,
                (Err(e), Err(reason)) => flush_error(e, "bad access token: "@ + reason),
                _ => false,
            },
        },
{
    let jwt = match require_token(token, purpose) {
        Ok(jwt) => jwt,
        Err(e) => {
            return Err(e);
        },
    };
    user_of(user_id_from_jwt(jwt))
}

/// Names separated by commas.
pub open spec fn comma_list(names: Seq<Seq<char>>) -> Seq<char>
    decreases names.len(),
{
    if names.len() == 0 {
        Seq::empty()
    } else if names.len() == 1 {
        names[0]
    } else {
        comma_list(names.drop_last()) + ", "@ + names.last()
    }
}

fn join_names(names: &Vec<String>) -> (text: String)
    ensures
        text@ == comma_list(texts_view(names@)),
{
    let ghost all = texts_view(names@);
    let mut text = String::new();
    let mut i: usize = 0;
    assert(all.take(0) =~= Seq::empty());
    assert(text@ =~= Seq::empty());
    while i < names.len()
        invariant
            i <= names@.len(),
            all == texts_view(names@),
            text@ == comma_list(all.take(i as int)),
        decreases names.len() - i,
    {
        assert(all.take(i + 1).drop_last() =~= all.take(i as int));
        assert(all.take(i + 1).last() == names@[i as int]@);
        if i > 0 {
            text.append(", ");
        }
        let ghost held = text@;
        text.append(names[i].as_str());
        if i == 0 {
            assert(held =~= Seq::empty());
            assert(held + names@[0]@ =~= names@[0]@);
        }
        i = i + 1;
    }
    assert(all.take(all.len() as int) =~= all);
    text
}

/// What is said where a pull that failed in part forbids the flush.
pub open spec fn flush_forbidden(failed: Seq<Seq<char>>) -> Seq<char> {
    "pull failed for "@ + comma_list(failed)
        + " — aborting flush so a stale edit can't re-push over a newer server row (SUR-736); retry sync"@
}

/// Whether a pull went through for every table.
pub fn is_clean(result: &PullResult) -> (yes: bool)
    ensures
        yes == (result.failed_tables@.len() == 0),
{
    result.failed_tables.len() == 0
}

/// Allows the flush behind a pull, if the pull went through for every table.
pub fn allow_flush(result: &PullResult) -> (allowed: Result<(), SyncError>)
    ensures
        match allowed {
            Ok(_) => result.failed_tables@.len() == 0,
            Err(e) => result.failed_tables@.len() > 0 && flush_error(
                e,
                flush_forbidden(texts_view(result.failed_tables@)),
            ),
        },
{
    if is_clean(result) {
        return Ok(());
    }
    let mut message = joined("pull failed for ", join_names(&result.failed_tables).as_str());
    message.append(
        " — aborting flush so a stale edit can't re-push over a newer server row (SUR-736); retry sync",
    );
    Err(SyncError::flush(message.as_str()))
}

/// What a reconciliation did.
#[derive(Debug, Clone, Copy, PartialEq, Eq, Structural)]
pub struct ReconcileResult {
    pub books_backfilled: usize,
    pub notes_rehomed: usize,
    pub notes_detached: usize,
    pub ideas_created: usize,
    pub dupes_collapsed: usize,
    pub signals_retired: usize,
    pub covers_resolved: usize,
}

/// A reconciliation that did nothing.
pub open spec fn nothing_reconciled() -> ReconcileResult {
    ReconcileResult {
        books_backfilled: 0,
        notes_rehomed: 0,
        notes_detached: 0,
        ideas_created: 0,
        dupes_collapsed: 0,
        signals_retired: 0,
        covers_resolved: 0,
    }
}

impl ReconcileResult {
    /// A reconciliation that did nothing.
    pub fn none() -> (result: ReconcileResult)
        ensures
            result == nothing_reconciled(),
    {
        ReconcileResult {
            books_backfilled: 0,
            notes_rehomed: 0,
            notes_detached: 0,
            ideas_created: 0,
            dupes_collapsed: 0,
            signals_retired: 0,
            covers_resolved: 0,
        }
    }
}

/// What a reconciliation counts for: one that failed counts for nothing and fails nothing else.
pub fn reconciled_or_none(outcome: Option<ReconcileResult>) -> (result: ReconcileResult)
    ensures
        result == (match outcome {
            Some(r) => r,
            None => nothing_reconciled(),
        }),
{
    match outcome {
        Some(r) => r,
        None => ReconcileResult::none(),
    }
}

/// Whether the counts told to the host are those of a reconciliation.
pub open spec fn reconcile_told(summary: ReconcileSummary, r: ReconcileResult) -> bool {
    &&& summary.books_backfilled == r.books_backfilled as u32
    &&& summary.notes_rehomed == r.notes_rehomed as u32
    &&& summary.notes_detached == r.notes_detached as u32
    &&& summary.ideas_created == r.ideas_created as u32
    &&& summary.dupes_collapsed == r.dupes_collapsed as u32
    &&& summary.signals_retired == r.signals_retired as u32
    &&& summary.covers_resolved == r.covers_resolved as u32
}

fn count(n: usize) -> (told: u32)
    ensures
        told == n as u32,
{
    #[verifier::truncate]
    (n as u32)
}

impl ReconcileSummary {
    /// The counts of a reconciliation as they are told to the host.
    pub fn of(r: &ReconcileResult) -> (summary: ReconcileSummary)
        ensures
            reconcile_told(summary, *r),
    {
        ReconcileSummary {
            books_backfilled: count(r.books_backfilled),
            notes_rehomed: count(r.notes_rehomed),
            notes_detached: count(r.notes_detached),
            ideas_created: count(r.ideas_created),
            dupes_collapsed: count(r.dupes_collapsed),
            signals_retired: count(r.signals_retired),
            covers_resolved: count(r.covers_resolved),
        }
    }
}

/// What a flush is reported as.
pub fn flush_summary(pushed: usize, still_queued: usize) -> (summary: FlushSummary)
    ensures
        summary.pushed == pushed as u32,
        summary.still_queued == still_queued as u32,
{
    FlushSummary { pushed: count(pushed), still_queued: count(still_queued) }
}

/// Whether the host is told what a pull and its reconciliation did.
pub open spec fn pull_told(summary: PullSummary, result: PullResult, r: ReconcileResult) -> bool {
    &&& summary.pulled == result.pulled as u32
    &&& summary.merged == result.merged as u32
    &&& summary.skipped_tombstones == result.skipped_tombstones as u32
    &&& superseded_view(summary.superseded@) == superseded_view(result.superseded@)
    &&& reconcile_told(summary.reconcile, r)
}

fn tell_pull(result: PullResult, reconciled: &ReconcileResult) -> (summary: PullSummary)
    ensures
        pull_told(summary, result, *reconciled),
{
    PullSummary {
        pulled: count(result.pulled),
        merged: count(result.merged),
        skipped_tombstones: count(result.skipped_tombstones),
        superseded: result.superseded,
        reconcile: ReconcileSummary::of(reconciled),
    }
}

/// What a pull of so many tables is reported as; an error if it failed for every one of them.
pub fn pull_summary(result: PullResult, reconciled: &ReconcileResult, tables: usize) -> (summary: Result<
    PullSummary,
    SyncError,
>)
    ensures
        match summary {
            Ok(s) => result.failed_tables@.len() != tables && pull_told(s, result, *reconciled),
            Err(e) => result.failed_tables@.len() == tables && flush_error(
                e,
                "pull failed for all tables: "@ + comma_list(texts_view(result.failed_tables@)),
            ),
        },
{
    if result.failed_tables.len() == tables {
        return Err(
            SyncError::flush(
                joined(
                    "pull failed for all tables: ",
                    join_names(&result.failed_tables).as_str(),
                ).as_str(),
            ),
        );
    }
    Ok(tell_pull(result, reconciled))
}

/// What a pull followed by a flush is reported as.
pub fn sync_summary(result: PullResult, reconciled: &ReconcileResult, flush: FlushSummary) -> (summary: SyncSummary)
    ensures
        pull_told(summary.pull, result, *reconciled),
        summary.flush == flush,
{
    SyncSummary { pull: tell_pull(result, reconciled), flush }
}

/// The time of a clock that counts milliseconds from the beginning of 1970; one that stands before
/// it counts as zero.
pub open spec fn stamp_of(clock: Option<u128>) -> i64 {
    match clock {
        Some(ms) => ms as i64,
        None => 0,
    }
}

/// The time of a clock.
pub fn clock_stamp(clock: Option<u128>) -> (now: i64)
    ensures
        now == stamp_of(clock),
{
    match clock {
        Some(ms) => #[verifier::truncate]
        (ms as i64),
        None => 0,
    }
}

/// `std::time::SystemTime`.
#[verifier::external_type_specification]
#[verifier::external_body]
pub struct ExSystemTime(std::time::SystemTime);

/// Calls `std::time::SystemTime::now`. Nothing is claimed of what the clock says.
#[verifier::external_body]
fn read_clock() -> (time: std::time::SystemTime) {
    std::time::SystemTime::now()
}

/// Calls `std::time::SystemTime::duration_since` for the milliseconds from the beginning of 1970;
/// nothing where the time lies before it. Nothing is claimed of how many there are.
#[verifier::external_body]
fn since_epoch(time: std::time::SystemTime) -> (clock: Option<u128>) {
    time.duration_since(std::time::UNIX_EPOCH).ok().map(|d| d.as_millis())
}

/// The time now, in milliseconds from the beginning of 1970. Nothing is said of which it is: that
/// is the clock's to decide.
pub fn epoch_ms() -> (now: i64)
    ensures
        exists|clock: Option<u128>| now == #[trigger] stamp_of(clock),
{
    clock_stamp(since_epoch(read_clock()))
}

} // verus!
