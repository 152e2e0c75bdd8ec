//! What signal rows hold and when they are written, and what deleting a note does to its margins,
//! told from the stored rows and edges.

use crate::annotations::{
    cascade_fits, has_link_id, leads_from, link_tombstones, margin_survives, margins_to, recount, recounted,
    recounts, scored_writes, stamped,
};
use crate::import::{prior_of, ScoreInputs};
use crate::json::{finite_bits, row_i64, JsonV, Number, RowV};
use crate::margin_laws::{is_margin, retires_edge};
use crate::mirror::{LinkV, Mirror};
use crate::names::lemma_column_names;
use crate::notes::delete_extras;
use crate::signals::{
    can_count, changed, draft_of, inputs_of, lemma_signal_columns, note_signals_outcome, scored, signal_row,
    signals_tombstone, stamp_after, stamp_fits, stored_state, DraftV, Score, SignalChange, SignalState,
};
use crate::tables::Table;
use crate::types::{NoteSignalKind, WriteV};
use crate::write_laws::{holds, holds_integer, law_edge_is_written_whole};
use vstd::prelude::*;

verus! {

/// Whether a column holds a number that is this whole one, in either form of integers.
pub open spec fn is_integer(row: RowV, name: Seq<char>, n: int) -> bool {
    row.contains_key(name) && match row[name] {
        JsonV::Num(Number::PosInt(m)) => m == n,
        JsonV::Num(Number::NegInt(m)) => m == n,
        _ => false,
    }
}

/// Whether a column of a stored row reads as this whole number: its own where it holds one that
/// fits, the default otherwise.
pub open spec fn reads_as(row: Option<RowV>, name: Seq<char>, default: i64, n: i64) -> bool {
    match row {
        Some(r) => is_integer(r, name, n as int) || (n == default && forall|m: i64|
            !#[trigger] is_integer(r, name, m as int)),
        None => n == default,
    }
}

/// Whether a column of a stored row counts as this whole number; a missing one counts as zero.
pub open spec fn counts_as(row: Option<RowV>, name: Seq<char>, n: i64) -> bool {
    reads_as(row, name, 0, n)
}

proof fn lemma_reads_as(row: Option<RowV>, name: Seq<char>, default: i64)
    ensures
        reads_as(row, name, default, crate::signals::int_or(row, name, default)),
{
    if let Some(r) = row {
        if row_i64(r, name) is None {
            assert forall|m: i64| !#[trigger] is_integer(r, name, m as int) by {}
        }
    }
}

/// The counters of a stored row are those of its columns, and zero where a column is missing or
/// holds no whole number; a row that is not there counts nothing. A stored prior is kept, and where
/// there is none it is that of the note's source.
pub proof fn law_stored_counters(row: Option<RowV>, source: Option<Seq<char>>)
    ensures
        ({
            let state = stored_state(row, source);
            &&& counts_as(row, "return_visits"@, state.return_visits)
            &&& counts_as(row, "stitch_spawns"@, state.stitch_spawns)
            &&& counts_as(row, "exposure_recency_at"@, state.exposure_recency_at)
            &&& counts_as(row, "engagement_recency_at"@, state.engagement_recency_at)
            &&& state.has_annotation <==> row is Some && holds(
                row->Some_0,
                "has_annotation"@,
                JsonV::Bool(true),
            )
            &&& match row {
                Some(r) => if r.contains_key("source_prior"@) && r["source_prior"@] is Num {
                    r["source_prior"@] matches JsonV::Num(Number::Float(bits)) ==> state.source_prior
                        == bits
                } else {
                    state.source_prior == prior_of(source)
                },
                None => state.source_prior == prior_of(source),
            }
        }),
{
    lemma_reads_as(row, "return_visits"@, 0);
    lemma_reads_as(row, "stitch_spawns"@, 0);
    lemma_reads_as(row, "exposure_recency_at"@, 0);
    lemma_reads_as(row, "engagement_recency_at"@, 0);
}

/// Whether binary64 bits of a number from one half up to one are those nearest to so many
/// hundredths.
pub open spec fn nearest_hundredths(bits: u64, hundredths: int) -> bool {
    let off = 100 * (0x10_0000_0000_0000 + bits % 0x10_0000_0000_0000) - hundredths
        * 0x20_0000_0000_0000;
    bits / 0x10_0000_0000_0000 == 0x3fe && -50 <= off <= 50
}

/// How much a source says for a note: handwriting and annotated highlights ninety hundredths, shared
/// notes seventy-five, typed ones seventy, pictures sixty, and all others fifty.
pub proof fn law_priors(source: Option<Seq<char>>)
    ensures
        nearest_hundredths(
            prior_of(source),
            if source == Some("handwritten"@) || source == Some("readwise_annotation"@) {
                90
            } else if source == Some("share"@) {
                75
            } else if source == Some("manual"@) {
                70
            } else if source == Some("image"@) {
                60
            } else {
                50
            },
        ),
{
    reveal_strlit("handwritten");
    reveal_strlit("readwise_annotation");
    reveal_strlit("share");
    reveal_strlit("manual");
    reveal_strlit("image");
    assert("handwritten"@.len() == 11 && "readwise_annotation"@.len() == 19 && "share"@.len() == 5
        && "manual"@.len() == 6 && "image"@.len() == 5);
    assert("share"@[0] == 's' && "image"@[0] == 'i');
}

/// What a signal does to the counters. An exposure moves the time of the last one to now, unless
/// one was recorded less than an hour ago. An engagement moves the time of the last one, and so does
/// saving margins, which marks the note annotated too. A return visit counts one more and is an
/// exposure at any time. Counting margins again sets the mark only. Nothing else changes.
pub proof fn law_signals_change_the_counters(state: SignalState, now: i64, b: bool)
    ensures
        ({
            let shown = changed(state, SignalChange::Recorded(NoteSignalKind::Exposure), now);
            &&& if state.exposure_recency_at > 0 && now - state.exposure_recency_at < 60 * 60 * 1000 {
                shown == state
            } else {
                shown == SignalState { exposure_recency_at: now, ..state }
            }
        }),
        changed(state, SignalChange::Recorded(NoteSignalKind::Engagement), now) == (SignalState {
            engagement_recency_at: now,
            ..state
        }),
        state.return_visits < i64::MAX ==> ({
            let back = changed(state, SignalChange::Recorded(NoteSignalKind::ReturnVisit), now);
            &&& back.return_visits == state.return_visits + 1
            &&& back.exposure_recency_at == now
            &&& back == SignalState {
                return_visits: back.return_visits,
                exposure_recency_at: now,
                ..state
            }
        }),
        changed(state, SignalChange::MarginsSaved, now) == (SignalState {
            has_annotation: true,
            engagement_recency_at: now,
            ..state
        }),
        changed(state, SignalChange::Annotated(b), now) == (SignalState {
            has_annotation: b,
            ..state
        }),
{
}

/// A drafted signal row is that of the note, changed from what is stored; it keeps the time at which
/// the stored row was created and is stamped now.
pub proof fn law_draft_is_made_of_the_stored_row(
    existing: Option<RowV>,
    note_id: Seq<char>,
    source: Option<Seq<char>>,
    now: i64,
    change: SignalChange,
)
    ensures
        ({
            let draft = draft_of(existing, note_id, source, now, change);
            &&& draft.note_id == note_id
            &&& draft.was_live <==> existing is Some && !holds(
                existing->Some_0,
                "deleted"@,
                JsonV::Bool(true),
            )
            &&& draft.before == stored_state(existing, source)
            &&& draft.after == changed(draft.before, change, now)
            &&& draft.updated_at == now
            &&& reads_as(existing, "created_at"@, now, draft.created_at)
            &&& draft.stored_importance is Some <==> existing is Some
                && existing->Some_0.contains_key("importance"@)
                && existing->Some_0["importance"@] is Num
        }),
{
    lemma_reads_as(existing, "created_at"@, now);
}

/// Whether a row is a signal row of a note with these contents, and nothing else. Bits that stand for
/// no finite number are written as null.
pub open spec fn is_signal_row(
    row: RowV,
    note_id: Seq<char>,
    state: SignalState,
    importance: u64,
    created_at: int,
    updated_at: int,
    deleted: bool,
) -> bool {
    &&& holds(row, "note_id"@, JsonV::Str(note_id))
    &&& if finite_bits(state.source_prior) {
        holds(row, "source_prior"@, JsonV::Num(Number::Float(state.source_prior)))
    } else {
        holds(row, "source_prior"@, JsonV::Null)
    }
    &&& holds_integer(row, "return_visits"@, state.return_visits as int)
    &&& holds(row, "has_annotation"@, JsonV::Bool(state.has_annotation))
    &&& holds_integer(row, "stitch_spawns"@, state.stitch_spawns as int)
    &&& holds_integer(row, "exposure_recency_at"@, state.exposure_recency_at as int)
    &&& holds_integer(row, "engagement_recency_at"@, state.engagement_recency_at as int)
    &&& if finite_bits(importance) {
        holds(row, "importance"@, JsonV::Num(Number::Float(importance)))
    } else {
        holds(row, "importance"@, JsonV::Null)
    }
    &&& holds_integer(row, "created_at"@, created_at)
    &&& holds_integer(row, "updated_at"@, updated_at)
    &&& holds(row, "deleted"@, JsonV::Bool(deleted))
    &&& row.dom().len() == 11
}

proof fn lemma_signal_row(
    note_id: Seq<char>,
    state: SignalState,
    importance: u64,
    created_at: i64,
    updated_at: i64,
    deleted: bool,
)
    ensures
        is_signal_row(
            signal_row(note_id, state, importance, created_at, updated_at, deleted),
            note_id,
            state,
            importance,
            created_at as int,
            updated_at as int,
            deleted,
        ),
{
    lemma_signal_columns(note_id, state, importance, created_at, updated_at, deleted);
    lemma_column_names();
    let row = signal_row(note_id, state, importance, created_at, updated_at, deleted);
    assert(row.dom() =~= Set::empty().insert("note_id"@).insert("source_prior"@).insert(
        "return_visits"@,
    ).insert("has_annotation"@).insert("stitch_spawns"@).insert("exposure_recency_at"@).insert(
        "engagement_recency_at"@,
    ).insert("importance"@).insert("created_at"@).insert("updated_at"@).insert("deleted"@));
}

/// A scored draft is written, whole and live, unless a live row is stored that has the same counters
/// and a score that agrees.
pub proof fn law_signal_row_is_written_whole(draft: DraftV, score: Score)
    ensures
        scored(draft, score) is None <==> draft.was_live && draft.after == draft.before
            && draft.stored_importance is Some && score.close,
        scored(draft, score) matches Some(row) ==> is_signal_row(
            row,
            draft.note_id,
            draft.after,
            score.importance,
            draft.created_at as int,
            draft.updated_at as int,
            false,
        ),
{
    lemma_signal_row(
        draft.note_id,
        draft.after,
        score.importance,
        draft.created_at,
        draft.updated_at,
        false,
    );
}

/// Retiring a signal row writes the whole row as it is stored, marked deleted and stamped after the
/// stored stamp and not before now; a row that is marked deleted already is left alone.
pub proof fn law_signal_tombstone_is_whole(
    existing: Option<RowV>,
    note_id: Seq<char>,
    source: Option<Seq<char>>,
    now: i64,
    importance: u64,
)
    ensures
        signals_tombstone(existing, note_id, source, now, importance) is None <==> existing is Some
            && holds(existing->Some_0, "deleted"@, JsonV::Bool(true)),
        signals_tombstone(existing, note_id, source, now, importance) matches Some(tomb) ==> exists|
            created_at: i64,
            stored_stamp: i64,
        |
            {
                &&& #[trigger] counts_as(existing, "updated_at"@, stored_stamp)
                &&& #[trigger] reads_as(existing, "created_at"@, now, created_at)
                &&& stored_stamp < i64::MAX ==> is_signal_row(
                    tomb,
                    note_id,
                    stored_state(existing, source),
                    importance,
                    created_at as int,
                    if now > stored_stamp {
                        now as int
                    } else {
                        stored_stamp + 1
                    },
                    true,
                )
            },
{
    let created_at = crate::signals::int_or(existing, "created_at"@, now);
    let stored_stamp = crate::signals::int_or(existing, "updated_at"@, 0);
    lemma_reads_as(existing, "updated_at"@, 0);
    lemma_signal_row(
        note_id,
        stored_state(existing, source),
        importance,
        created_at,
        stamp_after(now, stored_stamp),
        true,
    );
    assert(counts_as(existing, "updated_at"@, stored_stamp));
    lemma_reads_as(existing, "created_at"@, now);
}

/// A signals upsert is refused if and only if its prior or its score is no finite number, and is
/// written whole otherwise.
pub proof fn law_signals_upsert(
    note_id: Seq<char>,
    state: SignalState,
    importance: u64,
    created_at: i64,
    now: i64,
    deleted: bool,
)
    ensures
        match note_signals_outcome(note_id, state, importance, created_at, now, deleted) {
            Ok(row) => finite_bits(state.source_prior) && finite_bits(importance) && is_signal_row(
                row,
                note_id,
                state,
                importance,
                created_at as int,
                now as int,
                deleted,
            ),
            Err(reason) => !(finite_bits(state.source_prior) && finite_bits(importance)) && reason
                == "source_prior and importance must be finite numbers"@,
        },
{
    lemma_signal_row(note_id, state, importance, created_at, now, deleted);
}

/// A score is computed from the prior, the visits, the mark and the spawns, as they stand.
pub proof fn law_score_inputs(state: SignalState)
    ensures
        ({
            let inputs: ScoreInputs = inputs_of(state);
            &&& inputs.source_prior == state.source_prior
            &&& inputs.return_visits == state.return_visits
            &&& inputs.has_annotation == state.has_annotation
            &&& inputs.stitch_spawns == state.stitch_spawns
        }),
{
}

/// Whether an edge is a margin edge to a note.
pub open spec fn is_margin_to(edge: LinkV, id: Seq<char>) -> bool {
    edge.to == id && (edge.relation is None || edge.relation == Some("handwritten_annotation"@))
}

proof fn lemma_margins_to(links: Seq<LinkV>, id: Seq<char>, edge: LinkV)
    ensures
        margins_to(links, id).contains(edge) <==> exists|i: int|
            0 <= i < links.len() && is_margin_to(#[trigger] links[i], id) && links[i] == edge,
    decreases links.len(),
{
    if links.len() > 0 {
        let before = links.drop_last();
        let held = margins_to(before, id);
        let all = margins_to(links, id);
        lemma_margins_to(before, id, edge);
        if held.contains(edge) {
            let k = choose|k: int| 0 <= k < held.len() && held[k] == edge;
            assert(all[k] == edge);
            let i = choose|i: int|
                0 <= i < before.len() && is_margin_to(#[trigger] before[i], id) && before[i]
                    == edge;
            assert(links[i] == edge);
        }
        if all.contains(edge) {
            let k = choose|k: int| 0 <= k < all.len() && all[k] == edge;
            if k < held.len() {
                assert(held[k] == edge);
            } else {
                assert(is_margin_to(links[links.len() - 1], id));
            }
        }
        if exists|i: int|
            0 <= i < links.len() && is_margin_to(#[trigger] links[i], id) && links[i] == edge {
            let i = choose|i: int|
                0 <= i < links.len() && is_margin_to(#[trigger] links[i], id) && links[i] == edge;
            if i < before.len() {
                assert(before[i] == edge);
            } else {
                assert(all[held.len() as int] == edge);
            }
        }
    }
}

/// Deleting a note tombstones every margin edge that leads to it, whole and stamped after the stored
/// edge and not before now, and no other edge.
pub proof fn law_delete_retires_every_margin_edge(mirror: Mirror, id: Seq<char>, now: i64, n: int)
    requires
        0 <= n < mirror.edges().len(),
        is_margin_to(mirror.edges()[n], id),
        mirror.edges()[n].updated_at < i64::MAX,
    ensures
        exists|w: int|
            0 <= w < link_tombstones(margins_to(mirror.edges(), id), now).len() && retires_edge(
                #[trigger] link_tombstones(margins_to(mirror.edges(), id), now)[w],
                mirror.edges()[n],
                if now > mirror.edges()[n].updated_at {
                    now as int
                } else {
                    mirror.edges()[n].updated_at + 1
                },
            ),
        forall|w: int|
            0 <= w < link_tombstones(margins_to(mirror.edges(), id), now).len() ==> exists|k: int|
                0 <= k < mirror.edges().len() && is_margin_to(#[trigger] mirror.edges()[k], id) && (
                #[trigger] link_tombstones(margins_to(mirror.edges(), id), now)[w]).record_id
                    == mirror.edges()[k].id,
{
    let edges = mirror.edges();
    let edge = edges[n];
    let retired = margins_to(edges, id);
    let tombs = link_tombstones(retired, now);
    lemma_margins_to(edges, id, edge);
    let w = choose|w: int| 0 <= w < retired.len() && retired[w] == edge;
    law_edge_is_written_whole(
        edge.id,
        edge.from,
        edge.to,
        match edge.relation {
            Some(s) => s,
            None => "handwritten_annotation"@,
        },
        edge.created_at,
        stamp_after(now, edge.updated_at),
        true,
    );
    assert(retires_edge(tombs[w], edge, stamp_after(now, edge.updated_at) as int));
    assert forall|w: int| 0 <= w < tombs.len() implies exists|k: int|
        0 <= k < edges.len() && is_margin_to(#[trigger] edges[k], id) && (
        #[trigger] tombs[w]).record_id == edges[k].id by {
        assert(retired.contains(retired[w]));
        lemma_margins_to(edges, id, retired[w]);
        assert(tombs[w].record_id == retired[w].id);
    }
}

/// Whether a margin edge of a parent is left when the margin edges to a note are retired.
pub open spec fn keeps_a_margin(edges: Seq<LinkV>, parent: Seq<char>, id: Seq<char>) -> bool {
    exists|k: int|
        0 <= k < edges.len() && is_margin(#[trigger] edges[k], parent) && forall|j: int|
            0 <= j < edges.len() && is_margin_to(#[trigger] edges[j], id) ==> edges[j].id
                != edges[k].id
}

proof fn lemma_survives(edges: Seq<LinkV>, parent: Seq<char>, id: Seq<char>)
    ensures
        margin_survives(edges, parent, margins_to(edges, id)) <==> keeps_a_margin(
            edges,
            parent,
            id,
        ),
{
    let retired = margins_to(edges, id);
    assert forall|k: int| 0 <= k < edges.len() implies (!has_link_id(
        retired,
        (#[trigger] edges[k]).id,
    ) <==> forall|j: int|
        0 <= j < edges.len() && is_margin_to(#[trigger] edges[j], id) ==> edges[j].id
            != edges[k].id) by {
        if has_link_id(retired, edges[k].id) {
            let r = choose|r: int| 0 <= r < retired.len() && (#[trigger] retired[r]).id == edges[k].id;
            assert(retired.contains(retired[r]));
            lemma_margins_to(edges, id, retired[r]);
        } else {
            assert forall|j: int|
                0 <= j < edges.len() && is_margin_to(#[trigger] edges[j], id) implies edges[j].id
                != edges[k].id by {
                lemma_margins_to(edges, id, edges[j]);
                let r = choose|r: int| 0 <= r < retired.len() && retired[r] == edges[j];
                assert(retired[r].id != edges[k].id);
            }
        }
    }
    if margin_survives(edges, parent, retired) {
        let k = choose|k: int|
            0 <= k < edges.len() && crate::mirror::margin_of(#[trigger] edges[k], parent)
                && !has_link_id(retired, edges[k].id);
        assert(is_margin(edges[k], parent));
    }
    if keeps_a_margin(edges, parent, id) {
        let k = choose|k: int|
            0 <= k < edges.len() && is_margin(#[trigger] edges[k], parent) && forall|j: int|
                0 <= j < edges.len() && is_margin_to(#[trigger] edges[j], id) ==> edges[j].id
                    != edges[k].id;
        assert(crate::mirror::margin_of(edges[k], parent));
    }
}

/// Whether a parent's margins are counted again when a note is deleted: a margin edge leads from it
/// to the note, it is another note that is stored and not deleted, and it keeps a margin or has a
/// signal row.
pub open spec fn is_counted_again(mirror: Mirror, id: Seq<char>, parent: Seq<char>) -> bool {
    &&& exists|k: int|
        0 <= k < mirror.edges().len() && is_margin_to(#[trigger] mirror.edges()[k], id)
            && mirror.edges()[k].from == parent
    &&& parent != id
    &&& mirror.row_of(Table::Notes, parent) matches Some(row) && !holds(
        row,
        "deleted"@,
        JsonV::Bool(true),
    )
    &&& keeps_a_margin(mirror.edges(), parent, id) || mirror.row_of(Table::NoteSignals, parent) is Some
}

proof fn lemma_recounts(
    mirror: Mirror,
    id: Seq<char>,
    retired: Seq<LinkV>,
    edges: Seq<LinkV>,
    now: i64,
    parent: Seq<char>,
)
    ensures
        leads_from(edges, parent) && recounted(mirror, id, retired, parent) ==> recounts(
            mirror,
            id,
            retired,
            edges,
            now,
        ).contains(recount(mirror, retired, parent, now)),
        forall|i: int|
            0 <= i < recounts(mirror, id, retired, edges, now).len() ==> {
                let draft = #[trigger] recounts(mirror, id, retired, edges, now)[i];
                &&& leads_from(edges, draft.note_id)
                &&& recounted(mirror, id, retired, draft.note_id)
                &&& draft == recount(mirror, retired, draft.note_id, now)
            },
    decreases edges.len(),
{
    if edges.len() > 0 {
        let rest = edges.drop_last();
        let before = recounts(mirror, id, retired, rest, now);
        let all = recounts(mirror, id, retired, edges, now);
        let last = edges.last().from;
        lemma_recounts(mirror, id, retired, rest, now, parent);
        assert forall|p: Seq<char>| leads_from(rest, p) implies #[trigger] leads_from(edges, p) by {
            let i = choose|i: int| 0 <= i < rest.len() && (#[trigger] rest[i]).from == p;
            assert(edges[i].from == p);
        }
        assert(edges[edges.len() - 1].from == last);
        assert forall|i: int| 0 <= i < all.len() implies {
            let draft = #[trigger] all[i];
            &&& leads_from(edges, draft.note_id)
            &&& recounted(mirror, id, retired, draft.note_id)
            &&& draft == recount(mirror, retired, draft.note_id, now)
        } by {
            if i < before.len() {
                assert(all[i] == before[i]);
                assert(leads_from(rest, before[i].note_id));
            } else {
                assert(leads_from(edges, last));
            }
        }
        if leads_from(edges, parent) && recounted(mirror, id, retired, parent) {
            if leads_from(rest, parent) {
                let want = recount(mirror, retired, parent, now);
                let i = choose|i: int| 0 <= i < before.len() && before[i] == want;
                assert(all[i] == want);
            } else {
                let i = choose|i: int| 0 <= i < edges.len() && (#[trigger] edges[i]).from == parent;
                if i < rest.len() {
                    assert(rest[i].from == parent);
                }
                assert(all[before.len() as int] == recount(mirror, retired, parent, now));
            }
        }
    }
}

/// Deleting a note counts the margins of a parent again if and only if they have to be: its signal
/// row is drafted from the stored one with the mark of annotation set to whether a margin is left.
pub proof fn law_delete_counts_parents_again(
    mirror: Mirror,
    id: Seq<char>,
    now: i64,
    parent: Seq<char>,
)
    ensures
        ({
            let retired = margins_to(mirror.edges(), id);
            let drafts = recounts(mirror, id, retired, retired, now);
            &&& is_counted_again(mirror, id, parent) <==> exists|i: int|
                0 <= i < drafts.len() && (#[trigger] drafts[i]).note_id == parent
            &&& forall|i: int|
                0 <= i < drafts.len() && (#[trigger] drafts[i]).note_id == parent ==> {
                    let source = match mirror.row_of(Table::Notes, parent) {
                        Some(row) => if row.contains_key("source"@) && row["source"@] is Str {
                            Some(row["source"@]->Str_0)
                        } else {
                            None
                        },
                        None => None,
                    };
                    drafts[i] == draft_of(
                        mirror.row_of(Table::NoteSignals, parent),
                        parent,
                        source,
                        now,
                        SignalChange::Annotated(keeps_a_margin(mirror.edges(), parent, id)),
                    )
                }
        }),
{
    let edges = mirror.edges();
    let retired = margins_to(edges, id);
    let drafts = recounts(mirror, id, retired, retired, now);
    lemma_recounts(mirror, id, retired, retired, now, parent);
    lemma_survives(edges, parent, id);
    if leads_from(retired, parent) {
        let r = choose|r: int| 0 <= r < retired.len() && (#[trigger] retired[r]).from == parent;
        assert(retired.contains(retired[r]));
        lemma_margins_to(edges, id, retired[r]);
    }
    if exists|k: int|
        0 <= k < edges.len() && is_margin_to(#[trigger] edges[k], id) && edges[k].from == parent {
        let k = choose|k: int|
            0 <= k < edges.len() && is_margin_to(#[trigger] edges[k], id) && edges[k].from == parent;
        lemma_margins_to(edges, id, edges[k]);
        let r = choose|r: int| 0 <= r < retired.len() && retired[r] == edges[k];
        assert(retired[r].from == parent);
    }
    if is_counted_again(mirror, id, parent) {
        let want = recount(mirror, retired, parent, now);
        let i = choose|i: int| 0 <= i < drafts.len() && drafts[i] == want;
        assert(drafts[i].note_id == parent);
    }
}

/// A parent's counted row is written whole, under the parent's key and stamped after the stored row
/// and not before now, unless it says nothing new; nothing else is written.
pub proof fn law_counted_rows_are_written(
    mirror: Mirror,
    drafts: Seq<DraftV>,
    scores: Seq<Score>,
    now: i64,
    i: int,
)
    requires
        0 <= i < drafts.len(),
        scores.len() == drafts.len(),
        drafts[i].was_live && drafts[i].after == drafts[i].before
            && drafts[i].stored_importance is Some && scores[i].close || crate::signals::int_or(
            mirror.row_of(Table::NoteSignals, drafts[i].note_id),
            "updated_at"@,
            0,
        ) < i64::MAX,
    ensures
        ({
            let writes = scored_writes(mirror, drafts, scores, now);
            let draft = drafts[i];
            let silent = draft.was_live && draft.after == draft.before
                && draft.stored_importance is Some && scores[i].close;
            &&& writes.len() <= drafts.len()
            &&& !silent ==> exists|w: int, stored: i64|
                {
                    &&& 0 <= w < writes.len()
                    &&& #[trigger] counts_as(
                        mirror.row_of(Table::NoteSignals, draft.note_id),
                        "updated_at"@,
                        stored,
                    )
                    &&& (#[trigger] writes[w]).table == "note_signals"@
                    &&& writes[w].record_id == draft.note_id
                    &&& is_signal_row(
                        writes[w].row,
                        draft.note_id,
                        draft.after,
                        scores[i].importance,
                        draft.created_at as int,
                        if now > stored {
                            now as int
                        } else {
                            stored + 1
                        },
                        false,
                    )
                }
            &&& forall|w: int|
                0 <= w < writes.len() ==> exists|k: int|
                    0 <= k < drafts.len() && (#[trigger] drafts[k]).note_id == (
                    #[trigger] writes[w]).record_id
        }),
    decreases drafts.len(),
{
    lemma_counted_rows(mirror, drafts, scores, now);
    let writes = scored_writes(mirror, drafts, scores, now);
    let draft = drafts[i];
    let silent = draft.was_live && draft.after == draft.before && draft.stored_importance is Some
        && scores[i].close;
    let next = stamped(mirror, draft, now);
    let stored = crate::signals::int_or(
        mirror.row_of(Table::NoteSignals, draft.note_id),
        "updated_at"@,
        0,
    );
    lemma_reads_as(mirror.row_of(Table::NoteSignals, draft.note_id), "updated_at"@, 0);
    if !silent {
        law_signal_row_is_written_whole(next, scores[i]);
        let want = WriteV {
            table: "note_signals"@,
            record_id: draft.note_id,
            row: scored(next, scores[i])->Some_0,
        };
        lemma_counted_row_is_there(mirror, drafts, scores, now, i);
        let w = choose|w: int| 0 <= w < writes.len() && writes[w] == want;
        assert(writes[w].table == "note_signals"@);
        assert(counts_as(
            mirror.row_of(Table::NoteSignals, draft.note_id),
            "updated_at"@,
            stored,
        ));
    }
}

proof fn lemma_counted_row_is_there(
    mirror: Mirror,
    drafts: Seq<DraftV>,
    scores: Seq<Score>,
    now: i64,
    i: int,
)
    requires
        0 <= i < drafts.len(),
        scored(stamped(mirror, drafts[i], now), scores[i]) is Some,
    ensures
        scored_writes(mirror, drafts, scores, now).contains(
            WriteV {
                table: "note_signals"@,
                record_id: drafts[i].note_id,
                row: scored(stamped(mirror, drafts[i], now), scores[i])->Some_0,
            },
        ),
    decreases drafts.len(),
{
    let rest = drafts.drop_last();
    let before = scored_writes(mirror, rest, scores, now);
    let all = scored_writes(mirror, drafts, scores, now);
    let want = WriteV {
        table: "note_signals"@,
        record_id: drafts[i].note_id,
        row: scored(stamped(mirror, drafts[i], now), scores[i])->Some_0,
    };
    if i < rest.len() {
        assert(rest[i] == drafts[i]);
        lemma_counted_row_is_there(mirror, rest, scores, now, i);
        let w = choose|w: int| 0 <= w < before.len() && before[w] == want;
        assert(all[w] == want);
    } else {
        assert(all[before.len() as int] == want);
    }
}

proof fn lemma_counted_rows(mirror: Mirror, drafts: Seq<DraftV>, scores: Seq<Score>, now: i64)
    ensures
        scored_writes(mirror, drafts, scores, now).len() <= drafts.len(),
        forall|w: int|
            0 <= w < scored_writes(mirror, drafts, scores, now).len() ==> exists|k: int|
                0 <= k < drafts.len() && (#[trigger] drafts[k]).note_id == (
                #[trigger] scored_writes(mirror, drafts, scores, now)[w]).record_id,
    decreases drafts.len(),
{
    if drafts.len() > 0 {
        let rest = drafts.drop_last();
        let before = scored_writes(mirror, rest, scores, now);
        let all = scored_writes(mirror, drafts, scores, now);
        lemma_counted_rows(mirror, rest, scores, now);
        assert forall|w: int| 0 <= w < all.len() implies exists|k: int|
            0 <= k < drafts.len() && (#[trigger] drafts[k]).note_id == (
            #[trigger] all[w]).record_id by {
            if w < before.len() {
                assert(all[w] == before[w]);
                let k = choose|k: int|
                    0 <= k < rest.len() && (#[trigger] rest[k]).note_id == before[w].record_id;
                assert(drafts[k].note_id == all[w].record_id);
            } else {
                assert(drafts[drafts.len() - 1].note_id == all[w].record_id);
            }
        }
    }
}

/// Deleting a note takes along the tombstone of its signals, first and under the note's key, for the
/// source that is written, or else the stored one, unless they are tombstoned already; then what
/// becomes of its margin edges, unchanged.
pub proof fn law_delete_takes_the_signals_along(
    mirror: Mirror,
    id: Seq<char>,
    row: RowV,
    now: i64,
    importance: u64,
    cascade: Seq<WriteV>,
)
    ensures
        ({
            let extras = delete_extras(mirror, id, row, now, importance, cascade);
            let text = |r: RowV| r.contains_key("source"@) && r["source"@] is Str;
            let source = if text(row) {
                Some(row["source"@]->Str_0)
            } else {
                match mirror.row_of(Table::Notes, id) {
                    Some(note) => if text(note) {
                        Some(note["source"@]->Str_0)
                    } else {
                        None
                    },
                    None => None,
                }
            };
            match signals_tombstone(
                mirror.row_of(Table::NoteSignals, id),
                id,
                source,
                now,
                importance,
            ) {
                Some(tomb) => extras =~= seq![
                    WriteV { table: "note_signals"@, record_id: id, row: tomb },
                ] + cascade,
                None => extras == cascade,
            }
        }),
{
}

/// A change can be counted unless it is a return visit and the visits are at their highest. A
/// signal row can be retired if it is retired already, or there is a stamp after its own. The
/// cascade of a delete has room if there is a stamp after that of every edge that it retires.
pub proof fn law_what_has_room(
    state: SignalState,
    change: SignalChange,
    existing: Option<RowV>,
    stamp: i64,
    mirror: Mirror,
    id: Seq<char>,
)
    requires
        counts_as(existing, "updated_at"@, stamp),
    ensures
        can_count(state, change) <==> !(change == SignalChange::Recorded(NoteSignalKind::ReturnVisit)
            && state.return_visits == i64::MAX),
        stamp_fits(existing) <==> (existing is Some && holds(
            existing->Some_0,
            "deleted"@,
            JsonV::Bool(true),
        )) || stamp < i64::MAX,
        cascade_fits(mirror, id) <==> forall|k: int|
            0 <= k < mirror.edges().len() && is_margin_to(#[trigger] mirror.edges()[k], id)
                ==> mirror.edges()[k].updated_at < i64::MAX,
{
    let edges = mirror.edges();
    let retired = margins_to(edges, id);
    if let Some(row) = existing {
        match row_i64(row, "updated_at"@) {
            Some(n) => {
                assert(is_integer(row, "updated_at"@, n as int));
                assert(n == stamp);
            },
            None => {
                assert(!is_integer(row, "updated_at"@, stamp as int));
            },
        }
    }
    if cascade_fits(mirror, id) {
        assert forall|k: int|
            0 <= k < edges.len() && is_margin_to(#[trigger] edges[k], id) implies edges[k].updated_at
            < i64::MAX by {
            lemma_margins_to(edges, id, edges[k]);
            let r = choose|r: int| 0 <= r < retired.len() && retired[r] == edges[k];
            assert(retired[r].updated_at < i64::MAX);
        }
    }
    if forall|k: int|
        0 <= k < edges.len() && is_margin_to(#[trigger] edges[k], id) ==> edges[k].updated_at
            < i64::MAX {
        assert forall|r: int| 0 <= r < retired.len() implies (#[trigger] retired[r]).updated_at
            < i64::MAX by {
            assert(retired.contains(retired[r]));
            lemma_margins_to(edges, id, retired[r]);
            let k = choose|k: int|
                0 <= k < edges.len() && is_margin_to(#[trigger] edges[k], id) && edges[k]
                    == retired[r];
            assert(edges[k].updated_at < i64::MAX);
        }
    }
}

} // verus!
