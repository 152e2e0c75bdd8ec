//! Behavioural signals: what a signal does to a note's signal row, and when that is worth writing.
//!
//! A score is a float. The rules here take it by its bits, together with whether it agrees with
//! the stored one, and decide everything else.

use crate::import::{opt_text, prior_of, source_prior, ScoreInputs};
use crate::json::{
    field, float_json, int_json, is_finite_bits, row_bool, row_deleted, row_i64, Fields, Json, JsonV,
    RowV,
};
use crate::json_text::{float_bits, json_float};
use crate::mirror::{is_live_row, live_row, opt_row_text, row_view, text_of};
use crate::types::{store_error, NoteSignalKind, SyncError};
use vstd::prelude::*;

verus! {

/// An exposure within this many milliseconds of the last one says nothing new.
pub const SIGNAL_THROTTLE_MS: i64 = 3_600_000;

/// The counters of a signal row. The prior stands as binary64 bits.
#[derive(Debug, Clone, Copy, PartialEq, Eq, Structural)]
pub struct SignalState {
    pub source_prior: u64,
    pub return_visits: i64,
    pub has_annotation: bool,
    pub stitch_spawns: i64,
    pub exposure_recency_at: i64,
    pub engagement_recency_at: i64,
}

/// What happened to a note.
#[derive(Debug, Clone, Copy, PartialEq, Eq, Structural)]
pub enum SignalChange {
    /// A behavioural signal was recorded.
    Recorded(NoteSignalKind),
    /// Its margins were saved.
    MarginsSaved,
    /// Its margins were counted again.
    Annotated(bool),
}

/// A signal row before it is scored.
#[derive(Debug)]
pub struct SignalDraft {
    pub note_id: String,
    /// Whether a live row is stored.
    pub was_live: bool,
    pub before: SignalState,
    pub after: SignalState,
    /// The stored score, by its bits.
    pub stored_importance: Option<u64>,
    pub created_at: i64,
    pub updated_at: i64,
}

/// A signal row before it is scored, by its contents.
pub struct DraftV {
    pub note_id: Seq<char>,
    pub was_live: bool,
    pub before: SignalState,
    pub after: SignalState,
    pub stored_importance: Option<u64>,
    pub created_at: i64,
    pub updated_at: i64,
}

impl View for SignalDraft {
    type V = DraftV;

    open spec fn view(&self) -> DraftV {
        DraftV {
            note_id: self.note_id@,
            was_live: self.was_live,
            before: self.before,
            after: self.after,
            stored_importance: self.stored_importance,
            created_at: self.created_at,
            updated_at: self.updated_at,
        }
    }
}

/// A score, by its bits, and whether it agrees with the stored score.
#[derive(Debug, Clone, Copy, PartialEq, Eq, Structural)]
pub struct Score {
    pub importance: u64,
    pub close: bool,
}

/// An integer column of a row that may be absent.
pub open spec fn int_or(row: Option<RowV>, name: Seq<char>, default: i64) -> i64 {
    match row {
        Some(r) => match row_i64(r, name) {
            Some(n) => n,
            None => default,
        },
        None => default,
    }
}

/// An integer column of a row that may be absent.
pub fn read_int(row: Option<&Fields>, name: &str, default: i64) -> (n: i64)
    ensures
        n == int_or(row_view(row), name@, default),
{
    match row {
        Some(fields) => match fields.get_i64(name) {
            Some(n) => n,
            None => default,
        },
        None => default,
    }
}

/// A number column of a row that may be absent, as binary64 bits.
pub open spec fn float_of(row: Option<RowV>, name: Seq<char>) -> Option<u64> {
    match row {
        Some(r) => match field(r, name) {
            Some(value) => json_float(value),
            None => None,
        },
        None => None,
    }
}

fn read_float(row: Option<&Fields>, name: &str) -> (bits: Option<u64>)
    ensures
        bits == float_of(row_view(row), name@),
{
    match row {
        Some(fields) => match fields.get(name) {
            Some(value) => float_bits(value),
            None => None,
        },
        None => None,
    }
}

pub open spec fn flag_of(row: Option<RowV>, name: Seq<char>) -> bool {
    match row {
        Some(r) => row_bool(r, name) == Some(true),
        None => false,
    }
}

fn read_flag(row: Option<&Fields>, name: &str) -> (yes: bool)
    ensures
        yes == flag_of(row_view(row), name@),
{
    match row {
        Some(fields) => match fields.get_bool(name) {
            Some(b) => b,
            None => false,
        },
        None => false,
    }
}

/// The stored prior; where there is none, the one that the note's source gives.
pub open spec fn stored_prior(row: Option<RowV>, source: Option<Seq<char>>) -> u64 {
    match float_of(row, "source_prior"@) {
        Some(bits) => bits,
        None => prior_of(source),
    }
}

/// The stored counters, or those of a newborn row.
pub open spec fn stored_state(row: Option<RowV>, source: Option<Seq<char>>) -> SignalState {
    SignalState {
        source_prior: stored_prior(row, source),
        return_visits: int_or(row, "return_visits"@, 0),
        has_annotation: flag_of(row, "has_annotation"@),
        stitch_spawns: int_or(row, "stitch_spawns"@, 0),
        exposure_recency_at: int_or(row, "exposure_recency_at"@, 0),
        engagement_recency_at: int_or(row, "engagement_recency_at"@, 0),
    }
}

fn read_state(row: Option<&Fields>, source: Option<&String>) -> (state: SignalState)
    ensures
        state == stored_state(row_view(row), opt_text(source)),
{
    let prior = match read_float(row, "source_prior") {
        Some(bits) => bits,
        None => source_prior(source),
    };
    SignalState {
        source_prior: prior,
        return_visits: read_int(row, "return_visits", 0),
        has_annotation: read_flag(row, "has_annotation"),
        stitch_spawns: read_int(row, "stitch_spawns", 0),
        exposure_recency_at: read_int(row, "exposure_recency_at", 0),
        engagement_recency_at: read_int(row, "engagement_recency_at", 0),
    }
}

/// Whether an exposure now says something new: none was recorded, or long enough ago.
pub open spec fn exposure_counts(last: i64, now: i64) -> bool {
    last <= 0 || now - last >= SIGNAL_THROTTLE_MS
}

/// The counters after a change.
pub open spec fn changed(state: SignalState, change: SignalChange, now: i64) -> SignalState {
    match change {
        SignalChange::Recorded(NoteSignalKind::Exposure) => if exposure_counts(
            state.exposure_recency_at,
            now,
        ) {
            SignalState { exposure_recency_at: now, ..state }
        } else {
            state
        },
        SignalChange::Recorded(NoteSignalKind::Engagement) => SignalState {
            engagement_recency_at: now,
            ..state
        },
        SignalChange::Recorded(NoteSignalKind::ReturnVisit) => SignalState {
            return_visits: (state.return_visits + 1) as i64,
            exposure_recency_at: now,
            ..state
        },
        SignalChange::MarginsSaved => SignalState {
            has_annotation: true,
            engagement_recency_at: now,
            ..state
        },
        SignalChange::Annotated(b) => SignalState { has_annotation: b, ..state },
    }
}

/// Whether the visit counter still has room for one more.
pub open spec fn can_count(state: SignalState, change: SignalChange) -> bool {
    change == SignalChange::Recorded(NoteSignalKind::ReturnVisit) ==> state.return_visits < i64::MAX
}

fn apply_change(state: SignalState, change: SignalChange, now: i64) -> (after: SignalState)
    requires
        can_count(state, change),
    ensures
        after == changed(state, change, now),
{
    let mut after = state;
    match change {
        SignalChange::Recorded(NoteSignalKind::Exposure) => {
            let last = state.exposure_recency_at;
            if last <= 0 || now as i128 - last as i128 >= SIGNAL_THROTTLE_MS as i128 {
                after.exposure_recency_at = now;
            }
        },
        SignalChange::Recorded(NoteSignalKind::Engagement) => {
            after.engagement_recency_at = now;
        },
        SignalChange::Recorded(NoteSignalKind::ReturnVisit) => {
            after.return_visits = state.return_visits + 1;
            after.exposure_recency_at = now;
        },
        SignalChange::MarginsSaved => {
            after.has_annotation = true;
            after.engagement_recency_at = now;
        },
        SignalChange::Annotated(b) => {
            after.has_annotation = b;
        },
    }
    after
}

/// What the score of some counters is computed from.
pub open spec fn inputs_of(state: SignalState) -> ScoreInputs {
    ScoreInputs {
        source_prior: state.source_prior,
        return_visits: state.return_visits,
        has_annotation: state.has_annotation,
        stitch_spawns: state.stitch_spawns,
    }
}

impl SignalState {
    /// What the score of these counters is computed from.
    pub fn inputs(&self) -> (inputs: ScoreInputs)
        ensures
            inputs == inputs_of(*self),
    {
        ScoreInputs {
            source_prior: self.source_prior,
            return_visits: self.return_visits,
            has_annotation: self.has_annotation,
            stitch_spawns: self.stitch_spawns,
        }
    }
}

/// What a change makes of a stored row.
pub open spec fn draft_of(
    existing: Option<RowV>,
    note_id: Seq<char>,
    source: Option<Seq<char>>,
    now: i64,
    change: SignalChange,
) -> DraftV {
    DraftV {
        note_id,
        was_live: live_row(existing),
        before: stored_state(existing, source),
        after: changed(stored_state(existing, source), change, now),
        stored_importance: float_of(existing, "importance"@),
        created_at: int_or(existing, "created_at"@, now),
        updated_at: now,
    }
}

/// Works out what a change makes of a stored signal row, up to its score.
pub fn draft_signal_write(
    existing: Option<&Fields>,
    note_id: &str,
    note_source: Option<&String>,
    now: i64,
    change: SignalChange,
) -> (draft: SignalDraft)
    requires
        can_count(stored_state(row_view(existing), opt_text(note_source)), change),
    ensures
        draft@ == draft_of(row_view(existing), note_id@, opt_text(note_source), now, change),
{
    let before = read_state(existing, note_source);
    SignalDraft {
        note_id: note_id.to_owned(),
        was_live: is_live_row(existing),
        before,
        after: apply_change(before, change, now),
        stored_importance: read_float(existing, "importance"),
        created_at: read_int(existing, "created_at", now),
        updated_at: now,
    }
}

/// Whether a change can be counted on a stored row.
pub fn change_fits(existing: Option<&Fields>, note_source: Option<&String>, change: SignalChange) -> (yes: bool)
    ensures
        yes == can_count(stored_state(row_view(existing), opt_text(note_source)), change),
{
    match change {
        SignalChange::Recorded(NoteSignalKind::ReturnVisit) => read_state(
            existing,
            note_source,
        ).return_visits < i64::MAX,
        _ => true,
    }
}

/// A signal row as it is written.
pub open spec fn signal_row(
    note_id: Seq<char>,
    state: SignalState,
    importance: u64,
    created_at: i64,
    updated_at: i64,
    deleted: bool,
) -> RowV {
    Map::<Seq<char>, JsonV>::empty().insert("note_id"@, JsonV::Str(note_id)).insert(
        "source_prior"@,
        float_json(state.source_prior),
    ).insert("return_visits"@, int_json(state.return_visits)).insert(
        "has_annotation"@,
        JsonV::Bool(state.has_annotation),
    ).insert("stitch_spawns"@, int_json(state.stitch_spawns)).insert(
        "exposure_recency_at"@,
        int_json(state.exposure_recency_at),
    ).insert("engagement_recency_at"@, int_json(state.engagement_recency_at)).insert(
        "importance"@,
        float_json(importance),
    ).insert("created_at"@, int_json(created_at)).insert("updated_at"@, int_json(updated_at)).insert(
        "deleted"@,
        JsonV::Bool(deleted),
    )
}

fn build_signal_row(
    note_id: &str,
    state: &SignalState,
    importance: u64,
    created_at: i64,
    updated_at: i64,
    deleted: bool,
) -> (row: Fields)
    ensures
        row@ == signal_row(note_id@, *state, importance, created_at, updated_at, deleted),
{
    let mut row = Fields::new();
    row.insert("note_id", Json::text(note_id));
    row.insert("source_prior", Json::float(state.source_prior));
    row.insert("return_visits", Json::integer(state.return_visits));
    row.insert("has_annotation", Json::Bool(state.has_annotation));
    row.insert("stitch_spawns", Json::integer(state.stitch_spawns));
    row.insert("exposure_recency_at", Json::integer(state.exposure_recency_at));
    row.insert("engagement_recency_at", Json::integer(state.engagement_recency_at));
    row.insert("importance", Json::float(importance));
    row.insert("created_at", Json::integer(created_at));
    row.insert("updated_at", Json::integer(updated_at));
    row.insert("deleted", Json::Bool(deleted));
    row
}

/// Whether a scored draft says nothing that the stored live row does not say already. A live row
/// whose score is missing never does.
pub open spec fn signals_agree(draft: DraftV, close: bool) -> bool {
    draft.after == draft.before && draft.stored_importance is Some && close
}

/// The row to write for a scored draft; nothing where a live row already says it.
pub open spec fn scored(draft: DraftV, score: Score) -> Option<RowV> {
    if draft.was_live && signals_agree(draft, score.close) {
        None
    } else {
        Some(
            signal_row(
                draft.note_id,
                draft.after,
                score.importance,
                draft.created_at,
                draft.updated_at,
                false,
            ),
        )
    }
}

/// Decides whether a scored draft is written, and with what columns.
pub fn stage_signal_write(draft: &SignalDraft, score: Score) -> (row: Option<Fields>)
    ensures
        match row {
            Some(r) => scored(draft@, score) == Some(r@),
            None => scored(draft@, score) is None,
        },
{
    if draft.was_live && draft.after == draft.before && draft.stored_importance.is_some()
        && score.close {
        None
    } else {
        Some(
            build_signal_row(
                draft.note_id.as_str(),
                &draft.after,
                score.importance,
                draft.created_at,
                draft.updated_at,
                false,
            ),
        )
    }
}

/// The later of now and just after a stored stamp.
pub open spec fn stamp_after(now: i64, stored: i64) -> i64 {
    if now > stored {
        now
    } else {
        (stored + 1) as i64
    }
}

/// The later of now and just after a stored stamp, so that the write wins over the stored row.
pub fn later_stamp(now: i64, stored: i64) -> (stamp: i64)
    requires
        stored < i64::MAX,
    ensures
        stamp == stamp_after(now, stored),
        stamp > stored,
        stamp >= now,
{
    if now > stored {
        now
    } else {
        stored + 1
    }
}

/// The tombstone of a signal row: the full row, so that it can stand alone.
pub open spec fn signals_tombstone(
    existing: Option<RowV>,
    note_id: Seq<char>,
    source: Option<Seq<char>>,
    now: i64,
    importance: u64,
) -> Option<RowV> {
    if existing is Some && row_deleted(existing->Some_0) {
        None
    } else {
        Some(
            signal_row(
                note_id,
                stored_state(existing, source),
                importance,
                int_or(existing, "created_at"@, now),
                stamp_after(now, int_or(existing, "updated_at"@, 0)),
                true,
            ),
        )
    }
}

/// What the score of a signal row's tombstone is computed from; nothing where the row is
/// tombstoned already.
pub fn tombstone_inputs(existing: Option<&Fields>, note_source: Option<&String>) -> (inputs: Option<
    ScoreInputs,
>)
    ensures
        inputs == (if row_view(existing) is Some && row_deleted(row_view(existing)->Some_0) {
            None
        } else {
            Some(inputs_of(stored_state(row_view(existing), opt_text(note_source))))
        }),
{
    if existing.is_some() && !is_live_row(existing) {
        None
    } else {
        Some(read_state(existing, note_source).inputs())
    }
}

/// Whether a stored row can be retired: there is a stamp after its own, or it is tombstoned already.
pub open spec fn stamp_fits(existing: Option<RowV>) -> bool {
    existing is Some && row_deleted(existing->Some_0) || int_or(existing, "updated_at"@, 0)
        < i64::MAX
}

/// Whether a stored row can be retired: there is a stamp after its own, or it is tombstoned already.
pub fn has_later_stamp(existing: Option<&Fields>) -> (yes: bool)
    ensures
        yes == stamp_fits(row_view(existing)),
{
    existing.is_some() && !is_live_row(existing) || read_int(existing, "updated_at", 0) < i64::MAX
}

/// Builds the tombstone of a note's signal row, whether or not a row is stored; nothing where the
/// row is tombstoned already.
pub fn build_signals_tombstone(
    existing: Option<&Fields>,
    note_id: &str,
    note_source: Option<&String>,
    now: i64,
    importance: u64,
) -> (row: Option<Fields>)
    requires
        stamp_fits(row_view(existing)),
    ensures
        match row {
            Some(r) => signals_tombstone(
                row_view(existing),
                note_id@,
                opt_text(note_source),
                now,
                importance,
            ) == Some(r@),
            None => signals_tombstone(
                row_view(existing),
                note_id@,
                opt_text(note_source),
                now,
                importance,
            ) is None,
        },
{
    if existing.is_some() && !is_live_row(existing) {
        return None;
    }
    let state = read_state(existing, note_source);
    Some(
        build_signal_row(
            note_id,
            &state,
            importance,
            read_int(existing, "created_at", now),
            later_stamp(now, read_int(existing, "updated_at", 0)),
            true,
        ),
    )
}

/// Drafts the write for a recorded signal. Only a note that is there and not deleted earns one.
pub fn record_note_signal(
    note: Option<&Fields>,
    existing: Option<&Fields>,
    note_id: &str,
    kind: NoteSignalKind,
    now: i64,
) -> (draft: Option<SignalDraft>)
    requires
        live_row(row_view(note)) ==> can_count(
            stored_state(row_view(existing), opt_row_text(row_view(note), "source"@)),
            SignalChange::Recorded(kind),
        ),
    ensures
        match draft {
            Some(d) => live_row(row_view(note)) && d@ == draft_of(
                row_view(existing),
                note_id@,
                opt_row_text(row_view(note), "source"@),
                now,
                SignalChange::Recorded(kind),
            ),
            None => !live_row(row_view(note)),
        },
{
    if !is_live_row(note) {
        return None;
    }
    Some(
        draft_signal_write(
            existing,
            note_id,
            text_of(note, "source"),
            now,
            SignalChange::Recorded(kind),
        ),
    )
}

/// The row of a signals upsert.
pub open spec fn note_signals_outcome(
    note_id: Seq<char>,
    state: SignalState,
    importance: u64,
    created_at: i64,
    now: i64,
    deleted: bool,
) -> Result<RowV, Seq<char>> {
    if !crate::json::finite_bits(state.source_prior) || !crate::json::finite_bits(importance) {
        Err("source_prior and importance must be finite numbers"@)
    } else {
        Ok(signal_row(note_id, state, importance, created_at, now, deleted))
    }
}

/// Builds the row of a signals upsert. A prior or score that is not finite is refused.
pub fn enqueue_note_signals(
    note_id: &str,
    state: SignalState,
    importance: u64,
    created_at: i64,
    now: i64,
    deleted: bool,
) -> (row: Result<Fields, SyncError>)
    ensures
        match (
            row,
            note_signals_outcome(note_id@, state, importance, created_at, now, deleted),
        ) {
            (Ok(r), Ok(want)) => r@ == want,
            (Err(e), Err(message)) => store_error(e, message),
            _ => false,
        },
{
    if !is_finite_bits(state.source_prior) || !is_finite_bits(importance) {
        return Err(SyncError::store("source_prior and importance must be finite numbers"));
    }
    Ok(build_signal_row(note_id, &state, importance, created_at, now, deleted))
}

/// A tombstone is stamped after the row that it retires.
pub proof fn law_tombstone_wins(
    existing: RowV,
    note_id: Seq<char>,
    source: Option<Seq<char>>,
    now: i64,
    importance: u64,
)
    requires
        !row_deleted(existing),
        stamp_fits(Some(existing)),
    ensures
        ({
            let tomb = signals_tombstone(Some(existing), note_id, source, now, importance)->Some_0;
            &&& signals_tombstone(Some(existing), note_id, source, now, importance) is Some
            &&& row_i64(tomb, "updated_at"@) matches Some(stamp) && stamp > int_or(
                Some(existing),
                "updated_at"@,
                0,
            ) && stamp >= now
            &&& row_deleted(tomb)
        }),
{
    lemma_signal_columns(
        note_id,
        stored_state(Some(existing), source),
        importance,
        int_or(Some(existing), "created_at"@, now),
        stamp_after(now, int_or(Some(existing), "updated_at"@, 0)),
        true,
    );
}

/// Retiring a signal row twice writes once: the tombstone retires to nothing.
pub proof fn law_retire_once(
    existing: Option<RowV>,
    note_id: Seq<char>,
    source: Option<Seq<char>>,
    now: i64,
    importance: u64,
    later: i64,
    other: u64,
)
    requires
        signals_tombstone(existing, note_id, source, now, importance) is Some,
    ensures
        signals_tombstone(
            signals_tombstone(existing, note_id, source, now, importance),
            note_id,
            source,
            later,
            other,
        ) is None,
{
    lemma_signal_columns(
        note_id,
        stored_state(existing, source),
        importance,
        int_or(existing, "created_at"@, now),
        stamp_after(now, int_or(existing, "updated_at"@, 0)),
        true,
    );
}

/// The names of the columns of a signal row are distinct.
proof fn lemma_signal_names()
    ensures
        forall|a: int, b: int|
            #![trigger signal_names()[a], signal_names()[b]]
            0 <= a < b < signal_names().len() ==> signal_names()[a] != signal_names()[b],
        signal_names().len() == 11,
{
    reveal_strlit("note_id");
    reveal_strlit("source_prior");
    reveal_strlit("return_visits");
    reveal_strlit("has_annotation");
    reveal_strlit("stitch_spawns");
    reveal_strlit("exposure_recency_at");
    reveal_strlit("engagement_recency_at");
    reveal_strlit("importance");
    reveal_strlit("created_at");
    reveal_strlit("updated_at");
    reveal_strlit("deleted");
    assert("note_id"@.len() == 7 && "source_prior"@.len() == 12 && "return_visits"@.len() == 13
        && "has_annotation"@.len() == 14 && "stitch_spawns"@.len() == 13
        && "exposure_recency_at"@.len() == 19 && "engagement_recency_at"@.len() == 21
        && "importance"@.len() == 10 && "created_at"@.len() == 10 && "updated_at"@.len() == 10
        && "deleted"@.len() == 7);
    assert("note_id"@[0] == 'n' && "deleted"@[0] == 'd');
    assert("return_visits"@[0] == 'r' && "stitch_spawns"@[0] == 's');
    assert("importance"@[0] == 'i' && "created_at"@[0] == 'c' && "updated_at"@[0] == 'u');
}

pub open spec fn signal_names() -> Seq<Seq<char>> {
    seq![
        "note_id"@,
        "source_prior"@,
        "return_visits"@,
        "has_annotation"@,
        "stitch_spawns"@,
        "exposure_recency_at"@,
        "engagement_recency_at"@,
        "importance"@,
        "created_at"@,
        "updated_at"@,
        "deleted"@,
    ]
}

/// What the columns of a written signal row read as.
pub proof fn lemma_signal_columns(
    note_id: Seq<char>,
    state: SignalState,
    importance: u64,
    created_at: i64,
    updated_at: i64,
    deleted: bool,
)
    ensures
        ({
            let row = signal_row(note_id, state, importance, created_at, updated_at, deleted);
            &&& field(row, "note_id"@) == Some(JsonV::Str(note_id))
            &&& field(row, "source_prior"@) == Some(float_json(state.source_prior))
            &&& field(row, "return_visits"@) == Some(int_json(state.return_visits))
            &&& field(row, "has_annotation"@) == Some(JsonV::Bool(state.has_annotation))
            &&& field(row, "stitch_spawns"@) == Some(int_json(state.stitch_spawns))
            &&& field(row, "exposure_recency_at"@) == Some(int_json(state.exposure_recency_at))
            &&& field(row, "engagement_recency_at"@) == Some(int_json(state.engagement_recency_at))
            &&& field(row, "importance"@) == Some(float_json(importance))
            &&& field(row, "created_at"@) == Some(int_json(created_at))
            &&& field(row, "updated_at"@) == Some(int_json(updated_at))
            &&& field(row, "deleted"@) == Some(JsonV::Bool(deleted))
        }),
{
    lemma_signal_names();
    let names = signal_names();
    assert(names[0] == "note_id"@ && names[1] == "source_prior"@ && names[2] == "return_visits"@
        && names[3] == "has_annotation"@ && names[4] == "stitch_spawns"@ && names[5]
        == "exposure_recency_at"@ && names[6] == "engagement_recency_at"@ && names[7]
        == "importance"@ && names[8] == "created_at"@ && names[9] == "updated_at"@ && names[10]
        == "deleted"@);
}

/// A written row reads back as the counters that were written, whatever the note's source says
/// now: a stored prior is kept.
pub proof fn law_signal_row_reads_back(
    note_id: Seq<char>,
    state: SignalState,
    importance: u64,
    created_at: i64,
    updated_at: i64,
    deleted: bool,
    source: Option<Seq<char>>,
)
    requires
        crate::json::finite_bits(state.source_prior),
    ensures
        stored_state(
            Some(signal_row(note_id, state, importance, created_at, updated_at, deleted)),
            source,
        ) == state,
{
    lemma_signal_columns(note_id, state, importance, created_at, updated_at, deleted);
}

/// A second exposure within the throttle window, on a consistent row, writes nothing.
pub proof fn law_throttled_exposure_is_silent(
    first: DraftV,
    score: Score,
    note_id: Seq<char>,
    source: Option<Seq<char>>,
    later: i64,
    again: Score,
)
    requires
        scored(first, score) is Some,
        crate::json::finite_bits(first.after.source_prior),
        crate::json::finite_bits(score.importance),
        first.after.exposure_recency_at > 0,
        later - first.after.exposure_recency_at < SIGNAL_THROTTLE_MS,
        again.close,
    ensures
        scored(
            draft_of(
                scored(first, score),
                note_id,
                source,
                later,
                SignalChange::Recorded(NoteSignalKind::Exposure),
            ),
            again,
        ) is None,
{
    lemma_signal_columns(
        first.note_id,
        first.after,
        score.importance,
        first.created_at,
        first.updated_at,
        false,
    );
}

/// A change never touches the prior or the spawn count, and only a return visit counts a visit.
pub proof fn law_change_keeps_counters(state: SignalState, change: SignalChange, now: i64)
    requires
        can_count(state, change),
    ensures
        changed(state, change, now).source_prior == state.source_prior,
        changed(state, change, now).stitch_spawns == state.stitch_spawns,
        changed(state, change, now).return_visits == state.return_visits + (if change
            == SignalChange::Recorded(NoteSignalKind::ReturnVisit) {
            1int
        } else {
            0int
        }),
{
}

/// A row that is absent or tombstoned is always written, whatever the score.
pub proof fn law_dead_row_is_written(draft: DraftV, score: Score)
    requires
        !draft.was_live,
    ensures
        scored(draft, score) is Some,
{
}

/// A live row whose stored score is missing or disagrees is always written.
pub proof fn law_wrong_score_is_written(draft: DraftV, score: Score)
    requires
        draft.stored_importance is None || !score.close,
    ensures
        scored(draft, score) is Some,
{
}

} // verus!
