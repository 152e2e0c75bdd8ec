//! An import as a sequence of steps: this says what is done next, the caller does it and says what
//! came of it. Nothing of the archive is staged before the server was asked about all of it.

use crate::annotations::{SealV, SealedText};
use crate::import::{
    archive_version, finished_row, law_read_at_any_time, normalized_archive, normalized_row,
    normalized_rows, note_carried, note_columns, raw_notes_of, same_times, states_times, store_rows,
    store_values, ImportContext, NormalizedImport, NormalizedImportV,
};
use crate::json::{field, items_view, texts_view, Json, JsonV, RowV};
use crate::merge::{
    candidates_of, candidates_view, count_of, fetch_plan, import_candidates, import_summary,
    import_writes, law_second_import_imports_nothing, learned, lemma_accepted_bound, merge_time,
    no_counts, persistence_error, persistence_failed, plan_import, planned, preflight_error,
    preflight_failed, prepare_writes, refused_as, requests_view, require_clean_pull, rows_in,
    rows_of, same_candidates, seal_request, seal_wanted, seals_view, selected, server_kept,
    server_view, staged_into, staged_writes, table_order, tagged, take_returned, Candidate,
    CandidateV, FetchRequest, FetchRequestV, SealRequest, SealRequestV, Selection, SelectionV,
    ServerRow, ServerRowV,
};
use crate::mirror::{Mirror, MirrorRow};
use crate::pull::PullResult;
use crate::tables::Table;
use crate::types::{
    flush_error, import_error, store_error, writes_view, ImportSummary, SyncError, Write,
};
use vstd::prelude::*;

verus! {

/// How far an import has come.
#[derive(Debug)]
pub enum ImportRun {
    /// The tables are pulled.
    Pulling { import: NormalizedImport, now: i64 },
    /// The server is asked for the archive's rows; `at` requests were answered.
    Fetching {
        import: NormalizedImport,
        now: i64,
        requests: Vec<FetchRequest>,
        at: usize,
        known: Vec<ServerRow>,
    },
    /// The local rows are read.
    Selecting { import: NormalizedImport, now: i64, known: Vec<ServerRow> },
    /// The texts of the rows that are merged are sealed.
    Sealing { import: NormalizedImport, selection: Selection, time: i64 },
    /// The writes are staged.
    Staging { summary: ImportSummary },
    /// Nothing is left to do.
    Over,
}

/// The key of a local row.
#[derive(Debug)]
pub struct RowKey {
    pub table: Table,
    pub id: String,
}

/// What is done next.
#[derive(Debug)]
pub enum ImportStep {
    /// Pull every table.
    Pull,
    /// Ask the server for rows.
    Fetch(FetchRequest),
    /// Read these local rows.
    Read(Vec<RowKey>),
    /// Seal these texts, where there is one.
    Seal(Vec<Option<SealRequest>>),
    /// Stage these writes at once, at this time.
    Stage(Vec<Write>, i64),
    /// The import is over.
    Done(ImportSummary),
    /// It failed.
    Failed(SyncError),
}

/// The archive rows that an import goes through.
pub open spec fn all_candidates(import: NormalizedImport) -> Seq<CandidateV> {
    candidates_of(import@, table_order())
}

pub open spec fn keys_view(keys: Seq<RowKey>) -> Seq<(Table, Seq<char>)> {
    keys.map_values(|k: RowKey| (k.table, k.id@))
}

/// The keys of candidates.
pub open spec fn candidate_keys(candidates: Seq<CandidateV>) -> Seq<(Table, Seq<char>)> {
    candidates.map_values(|c: CandidateV| (c.table, c.row.primary_key))
}

pub open spec fn wants_view(wants: Seq<Option<SealRequest>>) -> Seq<Option<SealRequestV>> {
    wants.map_values(
        |w: Option<SealRequest>|
            match w {
                Some(r) => Some(r@),
                None => None,
            },
    )
}

/// Whether every row at these positions is in table shape.
pub open spec fn sealable(candidates: Seq<CandidateV>, accepted: Seq<usize>) -> bool {
    forall|i: int|
        0 <= i < accepted.len() ==> (#[trigger] accepted[i]) < candidates.len() && seal_wanted(
            candidates[accepted[i] as int],
        ) is Ok
}

/// The texts of the rows at these positions.
pub open spec fn wanted_seals(candidates: Seq<CandidateV>, accepted: Seq<usize>) -> Seq<
    Option<SealRequestV>,
> {
    Seq::new(accepted.len(), |i: int| seal_wanted(candidates[accepted[i] as int])->Ok_0)
}

/// Whether there is a seal for each text, and only for a text.
pub open spec fn sealed_all(
    candidates: Seq<CandidateV>,
    accepted: Seq<usize>,
    seals: Seq<Option<SealedText>>,
) -> bool {
    &&& seals.len() == accepted.len()
    &&& forall|i: int|
        0 <= i < accepted.len() ==> (seal_wanted(candidates[#[trigger] accepted[i] as int])->Ok_0
            is Some <==> seals[i] is Some)
}

/// Whether a step says that the server's side failed.
pub open spec fn preflight_refused(step: ImportStep) -> bool {
    match step {
        ImportStep::Failed(e) => flush_error(e, preflight_failed()),
        _ => false,
    }
}

/// Whether a step says that the store's side failed.
pub open spec fn persistence_refused(step: ImportStep) -> bool {
    match step {
        ImportStep::Failed(e) => store_error(e, persistence_failed()),
        _ => false,
    }
}

/// Whether a step refuses the archive for a reason.
pub open spec fn archive_refused(step: ImportStep, reason: Seq<char>) -> bool {
    match step {
        ImportStep::Failed(e) => import_error(e, reason),
        _ => false,
    }
}

/// Whether a summary reports a selection.
pub open spec fn summary_of(
    summary: ImportSummary,
    schema_version: u32,
    selection: SelectionV,
) -> bool {
    &&& summary.schema_version == schema_version
    &&& summary.imported == selection.imported
    &&& summary.skipped_stale == selection.skipped_stale
}

/// What comes after `at` answers: the next request, or the local rows.
pub open spec fn asks(
    import: NormalizedImport,
    now: i64,
    requests: Seq<FetchRequest>,
    at: int,
    known: Seq<ServerRowV>,
    next: ImportRun,
    step: ImportStep,
) -> bool {
    if at < requests.len() {
        match (next, step) {
            (
                ImportRun::Fetching { import: i, now: n, requests: r, at: a, known: k },
                ImportStep::Fetch(request),
            ) => {
                &&& i == import
                &&& n == now
                &&& r@ == requests
                &&& a == at
                &&& server_view(k@) == known
                &&& request@ == requests[at]@
            },
            _ => false,
        }
    } else {
        match (next, step) {
            (ImportRun::Selecting { import: i, now: n, known: k }, ImportStep::Read(keys)) => {
                &&& i == import
                &&& n == now
                &&& server_view(k@) == known
                &&& keys_view(keys@) == candidate_keys(all_candidates(import))
            },
            _ => false,
        }
    }
}

/// What comes after the pull.
pub open spec fn after_pulled(
    import: NormalizedImport,
    now: i64,
    pulled: Option<PullResult>,
    next: ImportRun,
    step: ImportStep,
) -> bool {
    match pulled {
        Some(result) if result.failed_tables@.len() == 0 => exists|requests: Seq<FetchRequest>|
            requests_view(requests) == planned(import@, table_order()) && #[trigger] asks(
                import,
                now,
                requests,
                0,
                Seq::empty(),
                next,
                step,
            ),
        _ => next is Over && preflight_refused(step),
    }
}

/// What comes after the answer to the request at `at`.
pub open spec fn after_fetched(
    import: NormalizedImport,
    now: i64,
    requests: Seq<FetchRequest>,
    at: int,
    known: Seq<ServerRowV>,
    returned: Option<Vec<Json>>,
    next: ImportRun,
    step: ImportStep,
) -> bool {
    match returned {
        Some(rows) => match learned(
            requests[at].table,
            requests[at]@.ids,
            items_view(rows@),
            known,
        ) {
            Some(more) => asks(import, now, requests, at + 1, more, next, step),
            None => next is Over && preflight_refused(step),
        },
        None => next is Over && preflight_refused(step),
    }
}

/// What comes after the local rows were read.
pub open spec fn after_read(
    import: NormalizedImport,
    now: i64,
    known: Seq<ServerRowV>,
    local: Option<Mirror>,
    next: ImportRun,
    step: ImportStep,
) -> bool {
    match local {
        None => next is Over && persistence_refused(step),
        Some(mirror) => match selected(all_candidates(import), mirror.rows@, known) {
            Err(refusal) => match step {
                ImportStep::Failed(e) => next is Over && refused_as(e, refusal),
                _ => false,
            },
            Ok(want) => match merge_time(want, now) {
                Err(_) => next is Over && archive_refused(
                    step,
                    "snapshot import timestamp cannot advance safely"@,
                ),
                Ok(None) => match step {
                    ImportStep::Done(summary) => next is Over && summary_of(
                        summary,
                        import.schema_version,
                        want,
                    ),
                    _ => false,
                },
                Ok(Some(when)) => if sealable(all_candidates(import), want.accepted) {
                    match (next, step) {
                        (
                            ImportRun::Sealing { import: i, selection, time },
                            ImportStep::Seal(wants),
                        ) => {
                            &&& i == import
                            &&& selection@ == want
                            &&& time == when
                            &&& wants_view(wants@) == wanted_seals(
                                all_candidates(import),
                                want.accepted,
                            )
                        },
                        _ => false,
                    }
                } else {
                    next is Over && archive_refused(step, "invalid normalized note"@)
                },
            },
        },
    }
}

/// What comes after the texts were sealed.
pub open spec fn after_sealed(
    import: NormalizedImport,
    selection: SelectionV,
    time: i64,
    seals: Seq<Option<SealedText>>,
    next: ImportRun,
    step: ImportStep,
) -> bool {
    match (next, step) {
        (ImportRun::Staging { summary }, ImportStep::Stage(writes, when)) => {
            &&& summary_of(summary, import.schema_version, selection)
            &&& when == time
            &&& writes_view(writes@) == staged_writes(
                all_candidates(import),
                selection.accepted,
                time,
                seals_view(seals),
            )
        },
        _ => false,
    }
}

/// What comes after the writes were staged, or were not.
pub open spec fn after_staged(summary: ImportSummary, staged: bool, next: ImportRun, step: ImportStep) -> bool {
    &&& next is Over
    &&& if staged {
        step == ImportStep::Done(summary)
    } else {
        persistence_refused(step)
    }
}

fn copy_request(request: &FetchRequest) -> (other: FetchRequest)
    ensures
        other@ == request@,
{
    let ghost want = texts_view(request.ids@);
    let mut ids: Vec<String> = Vec::new();
    let mut i: usize = 0;
    while i < request.ids.len()
        invariant
            i <= request.ids@.len(),
            want == texts_view(request.ids@),
            texts_view(ids@) == want.take(i as int),
        decreases request.ids.len() - i,
    {
        let ghost held = texts_view(ids@);
        let id = request.ids[i].clone();
        ids.push(id);
        assert(texts_view(ids@) =~= held.push(id@));
        assert(want[i as int] == id@);
        assert(held.push(id@) =~= want.take(i + 1));
        i = i + 1;
    }
    assert(want.take(want.len() as int) =~= want);
    FetchRequest { table: request.table, ids }
}

fn local_keys(candidates: &Vec<Candidate<'_>>) -> (keys: Vec<RowKey>)
    ensures
        keys_view(keys@) == candidate_keys(candidates_view(candidates@)),
{
    let ghost want = candidate_keys(candidates_view(candidates@));
    let mut keys: Vec<RowKey> = Vec::new();
    let mut i: usize = 0;
    while i < candidates.len()
        invariant
            i <= candidates@.len(),
            want == candidate_keys(candidates_view(candidates@)),
            keys_view(keys@) == want.take(i as int),
        decreases candidates.len() - i,
    {
        let ghost held = keys_view(keys@);
        let key = RowKey { table: candidates[i].table, id: candidates[i].row.primary_key.clone() };
        keys.push(key);
        assert(keys_view(keys@) =~= held.push((key.table, key.id@)));
        assert(want[i as int] == (key.table, key.id@));
        assert(keys_view(keys@) =~= want.take(i + 1));
        i = i + 1;
    }
    assert(want.take(want.len() as int) =~= want);
    keys
}

fn ask(
    import: NormalizedImport,
    now: i64,
    requests: Vec<FetchRequest>,
    at: usize,
    known: Vec<ServerRow>,
) -> (asked: (ImportRun, ImportStep))
    ensures
        asks(import, now, requests@, at as int, server_view(known@), asked.0, asked.1),
        asked.0.wf(),
{
    if at < requests.len() {
        let request = copy_request(&requests[at]);
        (
            ImportRun::Fetching { import, now, requests, at, known },
            ImportStep::Fetch(request),
        )
    } else {
        let keys = local_keys(&import_candidates(&import));
        (ImportRun::Selecting { import, now, known }, ImportStep::Read(keys))
    }
}

fn seal_requests(candidates: &Vec<Candidate<'_>>, accepted: &Vec<usize>) -> (result: Result<
    Vec<Option<SealRequest>>,
    SyncError,
>)
    requires
        forall|i: int| 0 <= i < accepted@.len() ==> (#[trigger] accepted@[i]) < candidates@.len(),
    ensures
        match result {
            Ok(wants) => sealable(candidates_view(candidates@), accepted@) && wants_view(wants@)
                == wanted_seals(candidates_view(candidates@), accepted@),
            Err(e) => !sealable(candidates_view(candidates@), accepted@) && import_error(
                e,
                "invalid normalized note"@,
            ),
        },
{
    let ghost all = candidates_view(candidates@);
    let ghost want = wanted_seals(all, accepted@);
    let mut wants: Vec<Option<SealRequest>> = Vec::new();
    let mut i: usize = 0;
    while i < accepted.len()
        invariant
            i <= accepted@.len(),
            all == candidates_view(candidates@),
            want == wanted_seals(all, accepted@),
            forall|j: int|
                0 <= j < accepted@.len() ==> (#[trigger] accepted@[j]) < candidates@.len(),
            forall|j: int|
                0 <= j < i ==> seal_wanted(all[#[trigger] accepted@[j] as int]) is Ok,
            wants_view(wants@) == want.take(i as int),
        decreases accepted.len() - i,
    {
        let ghost held = wants_view(wants@);
        let at: usize = accepted[i];
        assert(all[at as int] == candidates@[at as int]@);
        match seal_request(&candidates[at]) {
            Ok(wanted) => {
                wants.push(wanted);
                assert(want[i as int] == (match wanted {
                    Some(r) => Some(r@),
                    None => None,
                }));
                assert(wants_view(wants@) =~= held.push(want[i as int]));
                assert(wants_view(wants@) =~= want.take(i + 1));
            },
            Err(e) => {
                assert(!sealable(all, accepted@)) by {
                    assert(accepted@[i as int] == at);
                }
                return Err(e);
            },
        }
        i = i + 1;
    }
    assert(want.take(want.len() as int) =~= want);
    Ok(wants)
}

impl ImportRun {
    /// What holds of an import under way: a request is left while the server is asked, and the
    /// rows whose texts are sealed are in table shape.
    pub open spec fn wf(&self) -> bool {
        match *self {
            ImportRun::Fetching { import, now, requests, at, known } => at < requests@.len(),
            ImportRun::Sealing { import, selection, time } => sealable(
                all_candidates(import),
                selection.accepted@,
            ),
            _ => true,
        }
    }

    /// Begins the import of an archive.
    pub fn start(import: NormalizedImport, now: i64) -> (begun: (ImportRun, ImportStep))
        ensures
            begun.0 == (ImportRun::Pulling { import, now }),
            begun.0.wf(),
            begun.1 is Pull,
    {
        (ImportRun::Pulling { import, now }, ImportStep::Pull)
    }

    /// Takes what was pulled; nothing where the pull failed.
    pub fn take_pulled(self, pulled: Option<PullResult>) -> (next: (ImportRun, ImportStep))
        requires
            self is Pulling,
        ensures
            next.0.wf(),
            after_pulled(self->Pulling_import, self->Pulling_now, pulled, next.0, next.1),
    {
        match (self, pulled) {
            (ImportRun::Pulling { import, now }, Some(result)) => {
                if let Err(e) = require_clean_pull(&result) {
                    return (ImportRun::Over, ImportStep::Failed(e));
                }
                let requests = fetch_plan(&import);
                let known: Vec<ServerRow> = Vec::new();
                assert(server_view(known@) =~= Seq::empty());
                ask(import, now, requests, 0, known)
            },
            _ => (ImportRun::Over, ImportStep::Failed(preflight_error())),
        }
    }

    /// Takes the server's answer; nothing where the request failed.
    pub fn take_fetched(self, returned: Option<Vec<Json>>) -> (next: (ImportRun, ImportStep))
        requires
            self.wf(),
            self is Fetching,
        ensures
            next.0.wf(),
            after_fetched(
                self->Fetching_import,
                self->Fetching_now,
                self->requests@,
                self->at as int,
                server_view(self->Fetching_known@),
                returned,
                next.0,
                next.1,
            ),
    {
        match (self, returned) {
            (ImportRun::Fetching { import, now, requests, at, known }, Some(rows)) => {
                assert(at < requests.len());
                match take_returned(&requests[at], &rows, known) {
                    Ok(more) => ask(import, now, requests, at + 1, more),
                    Err(e) => (ImportRun::Over, ImportStep::Failed(e)),
                }
            },
            _ => (ImportRun::Over, ImportStep::Failed(preflight_error())),
        }
    }

    /// Takes the local rows; nothing where they could not be read.
    pub fn take_read(self, local: Option<Mirror>) -> (next: (ImportRun, ImportStep))
        requires
            self is Selecting,
        ensures
            next.0.wf(),
            after_read(
                self->Selecting_import,
                self->Selecting_now,
                server_view(self->Selecting_known@),
                local,
                next.0,
                next.1,
            ),
    {
        match (self, local) {
            (ImportRun::Selecting { import, now, known }, Some(mirror)) => {
                let candidates = import_candidates(&import);
                let (selection, time) = match plan_import(&candidates, &mirror, &known, now) {
                    Ok(plan) => plan,
                    Err(e) => {
                        return (ImportRun::Over, ImportStep::Failed(e));
                    },
                };
                proof {
                    lemma_accepted_bound(
                        all_candidates(import),
                        mirror.rows@,
                        server_view(known@),
                    );
                }
                match time {
                    None => (
                        ImportRun::Over,
                        ImportStep::Done(import_summary(import.schema_version, selection)),
                    ),
                    Some(time) => match seal_requests(&candidates, &selection.accepted) {
                        Ok(wants) => (
                            ImportRun::Sealing { import, selection, time },
                            ImportStep::Seal(wants),
                        ),
                        Err(e) => (ImportRun::Over, ImportStep::Failed(e)),
                    },
                }
            },
            _ => (ImportRun::Over, ImportStep::Failed(persistence_error())),
        }
    }

    /// Takes the seals, one for each text.
    pub fn take_sealed(self, seals: Vec<Option<SealedText>>) -> (next: (ImportRun, ImportStep))
        requires
            self.wf(),
            self is Sealing,
            sealed_all(
                all_candidates(self->Sealing_import),
                self->selection.accepted@,
                seals@,
            ),
        ensures
            next.0.wf(),
            after_sealed(
                self->Sealing_import,
                self->selection@,
                self->time,
                seals@,
                next.0,
                next.1,
            ),
    {
        match self {
            ImportRun::Sealing { import, selection, time } => {
                let candidates = import_candidates(&import);
                proof {
                    let all = candidates_view(candidates@);
                    assert forall|i: int| 0 <= i < selection.accepted@.len() implies {
                        &&& (#[trigger] selection.accepted@[i]) < candidates@.len()
                        &&& seal_wanted(candidates@[selection.accepted@[i] as int]@) is Ok
                        &&& seal_wanted(candidates@[selection.accepted@[i] as int]@)->Ok_0 is Some
                            <==> seals@[i] is Some
                    } by {
                        assert(all[selection.accepted@[i] as int] == candidates@[
                        selection.accepted@[i] as int]@);
                    }
                }
                let writes = prepare_writes(&candidates, &selection.accepted, time, &seals);
                let summary = import_summary(import.schema_version, selection);
                (ImportRun::Staging { summary }, ImportStep::Stage(writes, time))
            },
            _ => (ImportRun::Over, ImportStep::Pull),
        }
    }

    /// Takes whether the writes were staged.
    pub fn take_staged(self, staged: bool) -> (next: (ImportRun, ImportStep))
        requires
            self is Staging,
        ensures
            after_staged(self->summary, staged, next.0, next.1),
    {
        match self {
            ImportRun::Staging { summary } if staged => (
                ImportRun::Over,
                ImportStep::Done(summary),
            ),
            _ => (ImportRun::Over, ImportStep::Failed(persistence_error())),
        }
    }
}

/// What the caller says.
pub enum ImportEvent {
    Pulled(Option<PullResult>),
    Fetched(Option<Vec<Json>>),
    Read(Option<Mirror>),
    Sealed(Vec<Option<SealedText>>),
    Staged(bool),
}

/// Whether an import goes on so when it is told an event.
pub open spec fn goes_on(run: ImportRun, event: ImportEvent, next: ImportRun, step: ImportStep) -> bool {
    match (run, event) {
        (ImportRun::Pulling { import, now }, ImportEvent::Pulled(pulled)) => after_pulled(
            import,
            now,
            pulled,
            next,
            step,
        ),
        (
            ImportRun::Fetching { import, now, requests, at, known },
            ImportEvent::Fetched(returned),
        ) => after_fetched(
            import,
            now,
            requests@,
            at as int,
            server_view(known@),
            returned,
            next,
            step,
        ),
        (ImportRun::Selecting { import, now, known }, ImportEvent::Read(local)) => after_read(
            import,
            now,
            server_view(known@),
            local,
            next,
            step,
        ),
        (ImportRun::Sealing { import, selection, time }, ImportEvent::Sealed(seals)) => {
            after_sealed(import, selection@, time, seals@, next, step)
        },
        (ImportRun::Staging { summary }, ImportEvent::Staged(staged)) => after_staged(
            summary,
            staged,
            next,
            step,
        ),
        _ => false,
    }
}

/// Whether these are the states and steps of an import that is told these events.
pub open spec fn is_run(
    runs: Seq<ImportRun>,
    events: Seq<ImportEvent>,
    steps: Seq<ImportStep>,
) -> bool {
    &&& runs.len() == events.len() + 1
    &&& steps.len() == events.len()
    &&& forall|i: int|
        0 <= i < events.len() ==> goes_on(runs[i], #[trigger] events[i], runs[i + 1], steps[i])
}

/// What is known when these requests were answered so, one after the other; nothing if any answer
/// was refused.
pub open spec fn learned_all(requests: Seq<FetchRequestV>, events: Seq<ImportEvent>) -> Option<
    Seq<ServerRowV>,
>
    decreases requests.len(),
{
    if requests.len() == 0 {
        Some(Seq::empty())
    } else {
        match (learned_all(requests.drop_last(), events.drop_last()), events.last()) {
            (Some(before), ImportEvent::Fetched(Some(rows))) => learned(
                requests.last().table,
                requests.last().ids,
                items_view(rows@),
                before,
            ),
            _ => None,
        }
    }
}

proof fn lemma_asked(
    runs: Seq<ImportRun>,
    events: Seq<ImportEvent>,
    steps: Seq<ImportStep>,
    import: NormalizedImport,
    now: i64,
    requests: Seq<FetchRequest>,
    n: int,
)
    requires
        is_run(runs, events, steps),
        events.len() >= 1,
        asks(import, now, requests, 0, Seq::empty(), runs[1], steps[0]),
        0 <= n <= requests.len(),
        forall|i: int| 0 <= i < events.len() ==> !(#[trigger] runs[i] is Over),
        steps.last() is Stage,
    ensures
        n + 1 <= events.len(),
        learned_all(requests_view(requests).take(n), events.subrange(1, n + 1)) is Some,
        asks(
            import,
            now,
            requests,
            n,
            learned_all(requests_view(requests).take(n), events.subrange(1, n + 1))->Some_0,
            runs[n + 1],
            steps[n],
        ),
    decreases n,
{
    let all = requests_view(requests);
    if n > 0 {
        lemma_asked(runs, events, steps, import, now, requests, n - 1);
        assert(!(steps[n - 1] is Stage));
        assert(n < events.len());
        assert(goes_on(runs[n], events[n], runs[n + 1], steps[n]));
        assert(all.take(n).drop_last() =~= all.take(n - 1));
        assert(events.subrange(1, n + 1).drop_last() =~= events.subrange(1, n));
        assert(events.subrange(1, n + 1).last() == events[n]);
        assert(all.take(n).last() == requests[n - 1]@);
        assert(!(runs[n + 1] is Over)) by {
            if n + 1 == events.len() {
                assert(steps[n] == steps.last());
            }
        }
    }
}

/// An import stages only at the end of this: a pull that went through for every table, a sound
/// answer to every request, the local rows, and the seals. What it stages is the rows that are
/// newer than all that, each with its seal, at one time.
pub proof fn law_staging_follows_the_preflight(
    runs: Seq<ImportRun>,
    events: Seq<ImportEvent>,
    steps: Seq<ImportStep>,
    import: NormalizedImport,
    now: i64,
)
    requires
        is_run(runs, events, steps),
        events.len() > 0,
        runs[0] == (ImportRun::Pulling { import, now }),
        steps.last() is Stage,
    ensures
        ({
            let requests = planned(import@, table_order());
            let n = requests.len() as int;
            let known = learned_all(requests, events.subrange(1, n + 1));
            &&& events.len() == n + 3
            &&& match events[0] {
                ImportEvent::Pulled(Some(result)) => result.failed_tables@.len() == 0,
                _ => false,
            }
            &&& known is Some
            &&& match (events[n + 1], events[n + 2]) {
                (ImportEvent::Read(Some(mirror)), ImportEvent::Sealed(seals)) => match selected(
                    all_candidates(import),
                    mirror.rows@,
                    known->Some_0,
                ) {
                    Ok(selection) => {
                        &&& selection.accepted.len() > 0
                        &&& merge_time(selection, now) == Ok::<Option<i64>, ()>(
                            Some(steps.last()->Stage_1),
                        )
                        &&& writes_view(steps.last()->Stage_0@) == staged_writes(
                            all_candidates(import),
                            selection.accepted,
                            steps.last()->Stage_1,
                            seals_view(seals@),
                        )
                    },
                    Err(_) => false,
                },
                _ => false,
            }
        }),
{
    assert forall|i: int| 0 <= i < events.len() implies !(#[trigger] runs[i] is Over) by {
        assert(goes_on(runs[i], events[i], runs[i + 1], steps[i]));
    }
    assert(goes_on(runs[0], events[0], runs[1], steps[0]));
    assert(events[0] matches ImportEvent::Pulled(p) && p is Some);
    let wanted = planned(import@, table_order());
    let requests = choose|requests: Seq<FetchRequest>|
        requests_view(requests) == wanted && #[trigger] asks(
            import,
            now,
            requests,
            0,
            Seq::empty(),
            runs[1],
            steps[0],
        );
    let n = wanted.len() as int;
    lemma_asked(runs, events, steps, import, now, requests, n);
    assert(wanted.take(n) =~= wanted);
    assert(!(steps[n] is Stage));
    assert(goes_on(runs[n + 1], events[n + 1], runs[n + 2], steps[n + 1]));
    assert(!(steps[n + 1] is Stage));
    assert(goes_on(runs[n + 2], events[n + 2], runs[n + 3], steps[n + 2]));
    if events.len() > n + 3 {
        assert(goes_on(runs[n + 3], events[n + 3], runs[n + 4], steps[n + 3]));
        assert(runs[n + 4] is Over);
        if events.len() > n + 4 {
            assert(!(runs[n + 4] is Over));
        }
        assert(!(steps[n + 3] is Stage));
    }
}

/// Whether a row holds a text, a null or nothing under a name.
spec fn textual(row: RowV, name: Seq<char>) -> bool {
    match field(row, name) {
        None | Some(JsonV::Null) | Some(JsonV::Str(_)) => true,
        Some(_) => false,
    }
}

proof fn lemma_note_row_textual(input: RowV, now: i64, schema_version: u32, key: Seq<char>)
    requires
        note_columns(input, now, schema_version) is Ok,
    ensures
        ({
            let columns = note_columns(input, now, schema_version)->Ok_0;
            let row = finished_row(Table::Notes, key, columns).row;
            textual(row, "text"@) && textual(row, "book_id"@)
        }),
{
    reveal_strlit("text");
    reveal_strlit("book_id");
    reveal_strlit("created_at");
    reveal_strlit("updated_at");
    reveal_strlit("source");
    reveal_strlit("source_id");
    reveal_strlit("source_meta");
    reveal_strlit("chapter");
    reveal_strlit("tags");
    reveal_strlit("id");
    reveal_strlit("deleted");
    assert("text"@[0] == 't' && "text"@[1] == 'e' && "tags"@[1] == 'a');
    assert("book_id"@[0] == 'b' && "deleted"@[0] == 'd' && "chapter"@[0] == 'c');
    let carried = note_carried(input)->Ok_0;
    assert(textual(carried, "text"@) && textual(carried, "book_id"@));
}

proof fn lemma_notes_textual(values: Seq<JsonV>, context: ImportContext)
    requires
        normalized_rows(Table::Notes, values, context) is Ok,
    ensures
        forall|i: int|
            0 <= i < normalized_rows(Table::Notes, values, context)->Ok_0.len() ==> seal_wanted(
                CandidateV {
                    table: Table::Notes,
                    row: #[trigger] normalized_rows(Table::Notes, values, context)->Ok_0[i],
                },
            ) is Ok,
    decreases values.len(),
{
    if values.len() > 0 {
        let before = values.drop_last();
        lemma_notes_textual(before, context);
        let rows = normalized_rows(Table::Notes, before, context)->Ok_0;
        let row = normalized_row(Table::Notes, values.last(), rows, context)->Ok_0;
        match values.last() {
            JsonV::Obj(input) => {
                lemma_note_row_textual(
                    input,
                    context.now,
                    context.schema_version,
                    row.primary_key,
                );
            },
            _ => {},
        }
        let all = normalized_rows(Table::Notes, values, context)->Ok_0;
        assert forall|i: int| 0 <= i < all.len() implies seal_wanted(
            CandidateV { table: Table::Notes, row: #[trigger] all[i] },
        ) is Ok by {
            if i < rows.len() {
                assert(all[i] == rows[i]);
            } else {
                assert(all[i] == row);
            }
        }
    }
}

proof fn lemma_candidates_sealable(import: NormalizedImportV, tables: Seq<Table>)
    requires
        forall|i: int|
            0 <= i < import.notes.len() ==> seal_wanted(
                CandidateV { table: Table::Notes, row: #[trigger] import.notes[i] },
            ) is Ok,
    ensures
        forall|i: int|
            0 <= i < candidates_of(import, tables).len() ==> seal_wanted(
                #[trigger] candidates_of(import, tables)[i],
            ) is Ok,
    decreases tables.len(),
{
    if tables.len() > 0 {
        let before = candidates_of(import, tables.drop_last());
        lemma_candidates_sealable(import, tables.drop_last());
        let table = tables.last();
        let rows = rows_of(import, table);
        let all = candidates_of(import, tables);
        assert forall|i: int| 0 <= i < all.len() implies seal_wanted(#[trigger] all[i]) is Ok by {
            if i < before.len() {
                assert(all[i] == before[i]);
            } else {
                assert(all[i] == tagged(table, rows)[i - before.len()]);
                assert(all[i] == (CandidateV { table, row: rows[i - before.len()] }));
            }
        }
    }
}

/// The notes of an archive that was read are in table shape: whichever of its rows are merged,
/// their texts can be sealed.
pub proof fn law_read_archive_can_be_sealed(root: JsonV, now: i64, accepted: Seq<usize>)
    requires
        normalized_archive(root, now) is Ok,
        forall|i: int|
            0 <= i < accepted.len() ==> (#[trigger] accepted[i]) < candidates_of(
                normalized_archive(root, now)->Ok_0,
                table_order(),
            ).len(),
    ensures
        sealable(candidates_of(normalized_archive(root, now)->Ok_0, table_order()), accepted),
{
    let import = normalized_archive(root, now)->Ok_0;
    match root {
        JsonV::Obj(fields) => {
            let context = ImportContext {
                now,
                schema_version: archive_version(fields)->Ok_0,
                raw_notes: raw_notes_of(fields),
            };
            assert(store_rows(fields, Table::Notes, context) == Ok::<_, Seq<char>>(import.notes));
            lemma_notes_textual(store_values(fields, Table::Notes)->Ok_0, context);
        },
        _ => {},
    }
    lemma_candidates_sealable(import, table_order());
}

proof fn lemma_candidates_again(a: NormalizedImportV, b: NormalizedImportV, tables: Seq<Table>)
    requires
        forall|table: Table| same_times(#[trigger] rows_of(a, table), rows_of(b, table)),
    ensures
        same_candidates(candidates_of(a, tables), candidates_of(b, tables)),
    decreases tables.len(),
{
    if tables.len() > 0 {
        let before = tables.drop_last();
        lemma_candidates_again(a, b, before);
        let table = tables.last();
        assert(same_times(rows_of(a, table), rows_of(b, table)));
        let x = candidates_of(a, tables);
        let y = candidates_of(b, tables);
        let n = candidates_of(a, before).len();
        assert forall|i: int| 0 <= i < x.len() implies {
            &&& (#[trigger] x[i]).table == y[i].table
            &&& x[i].row.primary_key == y[i].row.primary_key
            &&& x[i].row.updated_at == y[i].row.updated_at
        } by {
            if i < n {
                assert(x[i] == candidates_of(a, before)[i]);
                assert(y[i] == candidates_of(b, before)[i]);
            } else {
                assert(x[i] == tagged(table, rows_of(a, table))[i - n]);
                assert(y[i] == tagged(table, rows_of(b, table))[i - n]);
                assert(rows_of(a, table)[i - n].primary_key == rows_of(b, table)[i - n].primary_key);
            }
        }
    }
}

/// An archive whose rows state their times, read and imported again later with nothing written in
/// between, imports nothing and passes over every row: as many as the first time were merged and
/// passed over together. Nothing is staged the second time.
pub proof fn law_archive_imported_again(
    root: JsonV,
    now: i64,
    later: i64,
    locals: Seq<MirrorRow>,
    server: Seq<ServerRowV>,
    seals: Seq<Option<SealV>>,
    after: Seq<MirrorRow>,
    later_server: Seq<ServerRowV>,
)
    requires
        states_times(root),
        normalized_archive(root, now) is Ok,
        ({
            let candidates = candidates_of(normalized_archive(root, now)->Ok_0, table_order());
            let first = selected(candidates, locals, server);
            &&& candidates.len() <= usize::MAX
            &&& forall|table: Table| #[trigger] rows_in(candidates, table) <= u32::MAX
            &&& first is Ok
            &&& merge_time(first->Ok_0, now) is Ok
            &&& staged_into(locals, import_writes(candidates, first->Ok_0, now, seals), after)
            &&& server_kept(candidates, server, later_server)
        }),
    ensures
        normalized_archive(root, later) is Ok,
        ({
            let candidates = candidates_of(normalized_archive(root, now)->Ok_0, table_order());
            let again = candidates_of(normalized_archive(root, later)->Ok_0, table_order());
            let first = selected(candidates, locals, server)->Ok_0;
            &&& selected(again, after, later_server) is Ok
            &&& {
                let second = selected(again, after, later_server)->Ok_0;
                &&& second.imported == no_counts()
                &&& second.accepted.len() == 0
                &&& merge_time(second, later) == Ok::<Option<i64>, ()>(None)
                &&& forall|table: Table| #[trigger]
                    count_of(second.skipped_stale, table) == count_of(first.imported, table)
                        + count_of(first.skipped_stale, table)
            }
        }),
{
    law_read_at_any_time(root, now, later);
    let a = normalized_archive(root, now)->Ok_0;
    let b = normalized_archive(root, later)->Ok_0;
    assert forall|table: Table| same_times(#[trigger] rows_of(a, table), rows_of(b, table)) by {}
    lemma_candidates_again(a, b, table_order());
    law_second_import_imports_nothing(
        candidates_of(a, table_order()),
        candidates_of(b, table_order()),
        locals,
        server,
        now,
        seals,
        after,
        later_server,
        later,
    );
}

} // verus!
