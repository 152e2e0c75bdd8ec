//! A pull or a sync as a sequence of steps: this says what is done next, the caller does it and
//! says what came of it.

use crate::engine::{
    allow_flush, comma_list, flush_forbidden, flush_summary, is_clean, nothing_reconciled,
    pull_summary, pull_told, reconciled_or_none, require_token, sync_summary, token_missing,
    user_of, ReconcileResult,
};
use crate::http::{jwt_user, user_id_from_jwt};
use crate::json::texts_view;
use crate::pull::PullResult;
use crate::types::{flush_error, PullSummary, SyncError, SyncSummary};
use vstd::prelude::*;

verus! {

/// What the host asked for.
#[derive(Debug, Clone, Copy, PartialEq, Eq, Structural)]
pub enum Goal {
    /// A pull alone.
    Pull,
    /// A pull, and a flush behind it.
    Sync,
}

/// How far a pull or a sync has come.
#[derive(Debug)]
pub enum Session {
    /// The tables are pulled. The token names this user, or nobody for this reason.
    Pulling { goal: Goal, named: Result<String, String>, tables: usize },
    /// What was pulled is reconciled.
    Reconciling { goal: Goal, user: String, tables: usize, pulled: PullResult },
    /// The queue is pushed.
    Flushing { user: String, pulled: PullResult, reconciled: ReconcileResult },
    /// Nothing is left to do.
    Over,
}

/// What is done next.
#[derive(Debug)]
pub enum SessionStep {
    /// Pull every table.
    Pull,
    /// Reconcile what was pulled, for this user.
    Reconcile(String),
    /// Push the queue, for this user.
    Flush(String),
    /// The pull is over.
    Pulled(PullSummary),
    /// The sync is over.
    Synced(SyncSummary),
    /// It failed.
    Failed(SyncError),
}

/// What a goal is called where a token is missing.
pub open spec fn goal_name(goal: Goal) -> Seq<char> {
    match goal {
        Goal::Pull => "pull"@,
        Goal::Sync => "sync"@,
    }
}

/// Whether every table of a pull went through.
pub open spec fn clean(pulled: PullResult) -> bool {
    pulled.failed_tables@.len() == 0
}

/// Whether a step says that all is over for a reason.
pub open spec fn failed_for(step: SessionStep, reason: Seq<char>) -> bool {
    match step {
        SessionStep::Failed(e) => flush_error(e, reason),
        _ => false,
    }
}

/// Whether a step reports a pull of so many tables: what was pulled, or that no table was.
pub open spec fn pull_reported(
    step: SessionStep,
    pulled: PullResult,
    reconciled: ReconcileResult,
    tables: usize,
) -> bool {
    if pulled.failed_tables@.len() == tables {
        failed_for(
            step,
            "pull failed for all tables: "@ + comma_list(texts_view(pulled.failed_tables@)),
        )
    } else {
        match step {
            SessionStep::Pulled(summary) => pull_told(summary, pulled, reconciled),
            _ => false,
        }
    }
}

/// Whether a step reports a sync.
pub open spec fn sync_reported(
    step: SessionStep,
    pulled: PullResult,
    reconciled: ReconcileResult,
    pushed: usize,
    still_queued: usize,
) -> bool {
    match step {
        SessionStep::Synced(summary) => {
            &&& pull_told(summary.pull, pulled, reconciled)
            &&& summary.flush.pushed == pushed as u32
            &&& summary.flush.still_queued == still_queued as u32
        },
        _ => false,
    }
}

/// What comes after a pull.
pub open spec fn after_pull(
    goal: Goal,
    user: Result<String, String>,
    tables: usize,
    pulled: PullResult,
    next: Session,
    step: SessionStep,
) -> bool {
    if !clean(pulled) && goal == Goal::Sync {
        next is Over && failed_for(step, flush_forbidden(texts_view(pulled.failed_tables@)))
    } else {
        match user {
            Ok(name) if clean(pulled) => {
                &&& next == (Session::Reconciling { goal, user: name, tables, pulled })
                &&& match step {
                    SessionStep::Reconcile(who) => who@ == name@,
                    _ => false,
                }
            },
            _ => next is Over && pull_reported(step, pulled, nothing_reconciled(), tables),
        }
    }
}

/// What comes after a reconciliation; one that failed counts for nothing.
pub open spec fn after_reconcile(
    goal: Goal,
    user: String,
    tables: usize,
    pulled: PullResult,
    outcome: Option<ReconcileResult>,
    next: Session,
    step: SessionStep,
) -> bool {
    let reconciled = match outcome {
        Some(r) => r,
        None => nothing_reconciled(),
    };
    match goal {
        Goal::Pull => next is Over && pull_reported(step, pulled, reconciled, tables),
        Goal::Sync => {
            &&& next == (Session::Flushing { user, pulled, reconciled })
            &&& match step {
                SessionStep::Flush(who) => who@ == user@,
                _ => false,
            }
        },
    }
}

impl Session {
    /// What holds of a session: only a user who is known is synced for, and what comes behind a
    /// pull comes behind a clean one.
    pub open spec fn wf(&self) -> bool {
        match *self {
            Session::Pulling { goal, named, tables } => goal == Goal::Sync ==> named is Ok,
            Session::Reconciling { goal, user, tables, pulled } => clean(pulled),
            Session::Flushing { user, pulled, reconciled } => clean(pulled),
            Session::Over => true,
        }
    }

    /// Begins. A pull needs a token; a sync needs one that names a user.
    pub fn start(goal: Goal, token: Option<&str>, tables: usize) -> (begun: (Session, SessionStep))
        ensures
            begun.0.wf(),
            match token {
                None => begun.0 is Over && failed_for(begun.1, token_missing(goal_name(goal))),
                Some(jwt) => match (goal, jwt_user(jwt@)) {
                    (Goal::Sync, Err(reason)) => {
                        &&& begun.0 is Over
                        &&& failed_for(begun.1, "bad access token: "@ + reason)
                    },
                    (_, read) => {
                        &&& begun.1 is Pull
                        &&& begun.0 is Pulling
                        &&& begun.0->Pulling_goal == goal
                        &&& begun.0->Pulling_tables == tables
                        &&& match (begun.0->named, read) {
                            (Ok(user), Ok(want)) => user@ == want,
                            (Err(e), Err(reason)) => e@ == reason,
                            _ => false,
                        }
                    },
                },
            },
    {
        let purpose: &str = match goal {
            Goal::Pull => "pull",
            Goal::Sync => "sync",
        };
        let jwt = match require_token(token, purpose) {
            Ok(jwt) => jwt,
            Err(e) => {
                return (Session::Over, SessionStep::Failed(e));
            },
        };
        match user_id_from_jwt(jwt) {
            Ok(user) => (Session::Pulling { goal, named: Ok(user), tables }, SessionStep::Pull),
            Err(reason) => match goal {
                Goal::Pull => (
                    Session::Pulling { goal, named: Err(reason), tables },
                    SessionStep::Pull,
                ),
                Goal::Sync => match user_of(Err(reason)) {
                    Ok(user) => (
                        Session::Pulling { goal, named: Ok(user), tables },
                        SessionStep::Pull,
                    ),
                    Err(e) => (Session::Over, SessionStep::Failed(e)),
                },
            },
        }
    }

    /// Takes what was pulled, or why nothing was.
    pub fn take_pulled(self, result: Result<PullResult, String>) -> (next: (Session, SessionStep))
        requires
            self.wf(),
            self is Pulling,
        ensures
            next.0.wf(),
            match result {
                Err(e) => next.0 is Over && failed_for(next.1, e@),
                Ok(pulled) => after_pull(
                    self->Pulling_goal,
                    self->named,
                    self->Pulling_tables,
                    pulled,
                    next.0,
                    next.1,
                ),
            },
    {
        let pulled = match result {
            Ok(pulled) => pulled,
            Err(e) => {
                return (Session::Over, SessionStep::Failed(SyncError::Flush(e)));
            },
        };
        match self {
            Session::Pulling { goal, named, tables } => {
                if let Goal::Sync = goal {
                    if let Err(e) = allow_flush(&pulled) {
                        return (Session::Over, SessionStep::Failed(e));
                    }
                }
                if is_clean(&pulled) {
                    if let Ok(name) = named {
                        let who = name.clone();
                        return (
                            Session::Reconciling { goal, user: name, tables, pulled },
                            SessionStep::Reconcile(who),
                        );
                    }
                }
                (Session::Over, report_pull(pulled, reconciled_or_none(None), tables))
            },
            _ => (Session::Over, SessionStep::Pull),
        }
    }

    /// Takes what a reconciliation did; nothing where it failed.
    pub fn take_reconciled(self, outcome: Option<ReconcileResult>) -> (next: (Session, SessionStep))
        requires
            self.wf(),
            self is Reconciling,
        ensures
            next.0.wf(),
            after_reconcile(
                self->Reconciling_goal,
                self->Reconciling_user,
                self->Reconciling_tables,
                self->Reconciling_pulled,
                outcome,
                next.0,
                next.1,
            ),
    {
        let reconciled = reconciled_or_none(outcome);
        match self {
            Session::Reconciling { goal, user, tables, pulled } => match goal {
                Goal::Pull => (Session::Over, report_pull(pulled, reconciled, tables)),
                Goal::Sync => {
                    let who = user.clone();
                    (Session::Flushing { user, pulled, reconciled }, SessionStep::Flush(who))
                },
            },
            _ => (Session::Over, SessionStep::Pull),
        }
    }

    /// Takes how many queued writes were pushed and how many were left, or why none was.
    pub fn take_flushed(self, result: Result<(usize, usize), String>) -> (next: (
        Session,
        SessionStep,
    ))
        requires
            self.wf(),
            self is Flushing,
        ensures
            next.0 is Over,
            match result {
                Ok((pushed, still_queued)) => sync_reported(
                    next.1,
                    self->Flushing_pulled,
                    self->reconciled,
                    pushed,
                    still_queued,
                ),
                Err(e) => failed_for(next.1, e@),
            },
    {
        match (self, result) {
            (Session::Flushing { user, pulled, reconciled }, Ok((pushed, still_queued))) => (
                Session::Over,
                SessionStep::Synced(
                    sync_summary(pulled, &reconciled, flush_summary(pushed, still_queued)),
                ),
            ),
            (_, Err(e)) => (Session::Over, SessionStep::Failed(SyncError::Flush(e))),
            _ => (Session::Over, SessionStep::Pull),
        }
    }
}

fn report_pull(pulled: PullResult, reconciled: ReconcileResult, tables: usize) -> (step: SessionStep)
    ensures
        pull_reported(step, pulled, reconciled, tables),
{
    match pull_summary(pulled, &reconciled, tables) {
        Ok(summary) => SessionStep::Pulled(summary),
        Err(e) => SessionStep::Failed(e),
    }
}

/// The queue is pushed only behind a pull that went through for every table.
pub proof fn law_flush_follows_a_clean_pull(
    goal: Goal,
    user: Result<String, String>,
    tables: usize,
    pulled: PullResult,
    reconciling: Session,
    reconcile: SessionStep,
    outcome: Option<ReconcileResult>,
    flushing: Session,
    flush: SessionStep,
)
    requires
        after_pull(goal, user, tables, pulled, reconciling, reconcile),
        reconciling is Reconciling,
        after_reconcile(
            reconciling->Reconciling_goal,
            reconciling->Reconciling_user,
            reconciling->Reconciling_tables,
            reconciling->Reconciling_pulled,
            outcome,
            flushing,
            flush,
        ),
        flush is Flush,
    ensures
        clean(pulled),
        goal == Goal::Sync,
        user is Ok,
        flush->Flush_0@ == user->Ok_0@,
        flushing->Flushing_pulled == pulled,
{
}

/// A pull that missed a table is not reconciled, and a sync over it pushes nothing.
pub proof fn law_partial_pull_goes_no_further(
    goal: Goal,
    user: Result<String, String>,
    tables: usize,
    pulled: PullResult,
    next: Session,
    step: SessionStep,
)
    requires
        !clean(pulled),
        after_pull(goal, user, tables, pulled, next, step),
    ensures
        next is Over,
        !(step is Reconcile),
        !(step is Flush),
        goal == Goal::Sync ==> step is Failed,
{
}

/// A reconciliation that failed fails neither the pull nor the flush.
pub proof fn law_failed_reconciliation_fails_nothing(
    goal: Goal,
    user: String,
    tables: usize,
    pulled: PullResult,
    next: Session,
    step: SessionStep,
)
    requires
        clean(pulled),
        tables > 0,
        after_reconcile(goal, user, tables, pulled, None, next, step),
    ensures
        !(step is Failed),
{
}

} // verus!
