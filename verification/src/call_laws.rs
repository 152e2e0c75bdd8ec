//! What calls of the library give back, told from their arguments.

use crate::annotations::{
    children_view, finish_cascade, opt_string, replace_handwritten_annotations, replace_signal,
    scored_writes, seals_view, stage_annotation_cascade_on_delete, CascadePlan, ReplacePlan,
    SealedText,
};
use crate::embed::{
    register_summary, wants_search, EmbedPass, EmbedSummary, RegisterEmbedderSummary,
};
use crate::engine::{flush_summary, is_clean, ReconcileResult};
use crate::http::{
    check_status, search_refused, Method, PostgrestClient, PostgrestError, Request,
};
use crate::http_laws::fits_in_a_header;
use crate::import::ScoreInputs;
use crate::importing::{ImportRun, ImportStep};
use crate::json::{Fields, Json, JsonV, Number, RowV};
use crate::margin_laws::{files_margin, retires_edge};
use crate::merge::{import_summary, opt_seal, Selection};
use crate::mirror::{is_margin_of, is_own_margin, link_touches, row_view, Mirror};
use crate::notes::{
    delete_extras, enqueue_collection, enqueue_collection_membership, enqueue_custom_idea,
    enqueue_lens, note_row, note_write, retire_note, stage_note, NoteDraft, NoteStaging,
    Retirement,
};
use crate::outbox::{resolve_book_id, IdRemap};
use crate::pull::{pull_target, PullResult};
use crate::session::{Goal, Session, SessionStep};
use crate::signal_laws::{is_margin_to, law_delete_retires_every_margin_edge};
use crate::signals::{
    changed, later_stamp, record_note_signal, scored, stored_state, tombstone_inputs, Score, SignalChange,
    SignalDraft,
};
use crate::tables::{table_name, Table};
use crate::text::{blank, law_trimming_takes_white_space_only};
use crate::types::{
    writes_view, FlushSummary, ImportSummary, NoteLinkRecord, NoteSignalKind, ReconcileSummary,
    SyncError, Write, WriteV,
};
use crate::write_laws::{holds, holds_integer};
use vstd::prelude::*;

verus! {

/// Saving margins drafts the parent's signal row from the stored one: marked annotated and engaged
/// with now, for the source of the plan, and otherwise as it is stored.
pub proof fn law_saved_margins_mark_the_parent(
    mirror: &Mirror,
    plan: &ReplacePlan,
    now: i64,
    draft: SignalDraft,
)
    requires
        call_ensures(replace_signal, (mirror, plan, now), draft),
    ensures
        ({
            let before = stored_state(
                mirror.row_of(Table::NoteSignals, plan.parent_id@),
                opt_string(plan.source),
            );
            &&& draft.note_id@ == plan.parent_id@
            &&& draft.before == before
            &&& draft.after.has_annotation
            &&& draft.after.engagement_recency_at == now
            &&& draft.after.source_prior == before.source_prior
            &&& draft.after.return_visits == before.return_visits
            &&& draft.after.stitch_spawns == before.stitch_spawns
            &&& draft.after.exposure_recency_at == before.exposure_recency_at
            &&& draft.updated_at == now
        }),
{
    assert(draft@.after == draft.after && draft@.before == draft.before && draft@.note_id
        == draft.note_id@);
}

/// A replacement files each margin of its plan under the plan's parent, with the parent's book, and
/// ends with the parent's signal row where that says something new. A plan without margins writes
/// nothing.
pub proof fn law_replacement_files_its_plan(
    mirror: &Mirror,
    plan: &ReplacePlan,
    seals: &Vec<SealedText>,
    draft: &SignalDraft,
    score: Score,
    now: i64,
    writes: Vec<Write>,
    n: int,
)
    requires
        call_ensures(
            replace_handwritten_annotations,
            (mirror, plan, seals, draft, score, now),
            writes,
        ),
        seals@.len() == plan.children@.len(),
        now + plan.children@.len() <= i64::MAX + 1,
    ensures
        plan.children@.len() == 0 ==> writes@.len() == 0,
        0 <= n < plan.children@.len() ==> writes@.len() >= 2 * plan.children@.len() && files_margin(
            writes@[2 * n]@,
            writes@[2 * n + 1]@,
            plan.children@[n]@,
            plan.parent_id@,
            opt_string(plan.book_id),
            seals@[n]@,
            now + n,
        ),
        plan.children@.len() > 0 && scored(draft@, score) is Some ==> writes@.len() > 0
            && writes@.last()@ == (WriteV {
            table: "note_signals"@,
            record_id: plan.parent_id@,
            row: scored(draft@, score)->Some_0,
        }),
{
    let all = writes_view(writes@);
    let children = children_view(plan.children@);
    assert(all.len() == writes@.len());
    assert(children.len() == plan.children@.len());
    if plan.children@.len() > 0 {
        let k: int = if 0 <= n < plan.children@.len() {
            n
        } else {
            0
        };
        crate::margin_laws::law_replace_files_every_margin(
            *mirror,
            plan.parent_id@,
            opt_string(plan.book_id),
            children,
            seals_view(seals@),
            now,
            scored(draft@, score),
            k,
        );
        assert(all[2 * k] == writes@[2 * k]@);
        assert(all[2 * k + 1] == writes@[2 * k + 1]@);
        assert(children[k] == plan.children@[k]@);
        assert(seals_view(seals@)[k] == seals@[k]@);
        if writes@.len() > 0 {
            assert(all.last() == writes@.last()@);
        }
    }
}

/// Works out for every margin edge to a deleted note, and for no other edge, its whole tombstone.
pub proof fn law_cascade_retires_the_margin_edges(
    mirror: &Mirror,
    id: &str,
    now: i64,
    plan: CascadePlan,
    n: int,
)
    requires
        call_ensures(stage_annotation_cascade_on_delete, (mirror, id, now), plan),
        0 <= n < mirror.edges().len(),
        is_margin_to(mirror.edges()[n], id@),
        mirror.edges()[n].updated_at < i64::MAX,
    ensures
        exists|w: int|
            0 <= w < plan.edges@.len() && retires_edge(
                (#[trigger] plan.edges@[w])@,
                mirror.edges()[n],
                if now > mirror.edges()[n].updated_at {
                    now as int
                } else {
                    mirror.edges()[n].updated_at + 1
                },
            ),
        forall|w: int|
            0 <= w < plan.edges@.len() ==> exists|k: int|
                0 <= k < mirror.edges().len() && is_margin_to(#[trigger] mirror.edges()[k], id@)
                    && (#[trigger] plan.edges@[w])@.record_id == mirror.edges()[k].id,
{
    let all = writes_view(plan.edges@);
    assert(all.len() == plan.edges@.len());
    law_delete_retires_every_margin_edge(*mirror, id@, now, n);
    let edge = mirror.edges()[n];
    let stamp = if now > edge.updated_at {
        now as int
    } else {
        edge.updated_at + 1
    };
    let w = choose|w: int| 0 <= w < all.len() && retires_edge(#[trigger] all[w], edge, stamp);
    assert(plan.edges@[w]@ == all[w]);
    assert forall|w: int| 0 <= w < plan.edges@.len() implies exists|k: int|
        0 <= k < mirror.edges().len() && is_margin_to(#[trigger] mirror.edges()[k], id@) && (
        #[trigger] plan.edges@[w])@.record_id == mirror.edges()[k].id by {
        assert(plan.edges@[w]@ == all[w]);
    }
}

/// A finished cascade is its edges, as they were worked out, and the scored rows behind them.
pub proof fn law_finished_cascade(
    mirror: &Mirror,
    plan: CascadePlan,
    scores: &Vec<Score>,
    now: i64,
    writes: Vec<Write>,
)
    requires
        call_ensures(finish_cascade, (mirror, plan, scores, now), writes),
    ensures
        writes@.len() >= plan.edges@.len(),
        forall|i: int| 0 <= i < plan.edges@.len() ==> (#[trigger] writes@[i])@ == plan.edges@[i]@,
        writes_view(writes@).skip(plan.edges@.len() as int) =~= scored_writes(
            *mirror,
            crate::annotations::drafts_view(plan.recounts@),
            scores@,
            now,
        ),
{
    let all = writes_view(writes@);
    let edges = writes_view(plan.edges@);
    assert(all.len() == writes@.len() && edges.len() == plan.edges@.len());
    assert forall|i: int| 0 <= i < plan.edges@.len() implies (#[trigger] writes@[i])@
        == plan.edges@[i]@ by {
        assert(all[i] == writes@[i]@);
        assert(edges[i] == plan.edges@[i]@);
    }
}

/// A staged delete is the note's own write, the tombstone of its signals, unless they are retired,
/// and the finished cascade. A staged write that deletes nothing is the note's own alone.
pub proof fn law_staged_note(
    draft: NoteDraft,
    seal: Option<&SealedText>,
    mirror: &Mirror,
    now: i64,
    importance: u64,
    plan: CascadePlan,
    scores: &Vec<Score>,
    staging: NoteStaging,
)
    requires
        call_ensures(
            stage_note,
            (draft, seal, mirror, now, importance, plan, scores),
            Ok(staging),
        ),
    ensures
        ({
            let write = WriteV {
                table: "notes"@,
                record_id: draft.id@,
                row: note_row(draft, opt_seal(seal)),
            };
            let extras = delete_extras(
                *mirror,
                draft.id@,
                write.row,
                now,
                importance,
                writes_view(plan.edges@) + scored_writes(
                    *mirror,
                    crate::annotations::drafts_view(plan.recounts@),
                    scores@,
                    now,
                ),
            );
            match staging {
                NoteStaging::Merge(w) => seal is Some && !draft.deleted && w@ == write,
                NoteStaging::Batch(ws) => seal is Some && draft.deleted && writes_view(ws@) =~= seq![
                    write,
                ] + extras,
                NoteStaging::Patch(ws) => seal is None && writes_view(ws@) =~= (if draft.deleted {
                    seq![write] + extras
                } else {
                    seq![write]
                }),
            }
        }),
{
}

/// A drafted delete is scored for what is stored of its signals, and for nothing if they are retired
/// already. A full write counts with its own source, or as typed; a patch with the source that it
/// names, else with the stored one.
pub proof fn law_retirement_is_scored(
    draft: &NoteDraft,
    mirror: &Mirror,
    now: i64,
    retirement: Retirement,
)
    requires
        call_ensures(retire_note, (draft, mirror, now), retirement),
    ensures
        ({
            let signals = mirror.row_of(Table::NoteSignals, draft.id@);
            let text = |r: RowV| r.contains_key("source"@) && r["source"@] is Str;
            let source = if draft.plaintext is Some {
                match draft.source {
                    Some(s) => Some(s@),
                    None => Some("manual"@),
                }
            } else if text(draft.row@) {
                Some(draft.row@["source"@]->Str_0)
            } else {
                match mirror.row_of(Table::Notes, draft.id@) {
                    Some(note) => if text(note) {
                        Some(note["source"@]->Str_0)
                    } else {
                        None
                    },
                    None => None,
                }
            };
            let state = stored_state(signals, source);
            if signals is Some && holds(signals->Some_0, "deleted"@, JsonV::Bool(true)) {
                retirement.inputs is None
            } else {
                retirement.inputs == Some(
                    ScoreInputs {
                        source_prior: state.source_prior,
                        return_visits: state.return_visits,
                        has_annotation: state.has_annotation,
                        stitch_spawns: state.stitch_spawns,
                    },
                )
            }
        }),
{
}

/// A signal is recorded if and only if its note is stored and not deleted: the draft is that of the
/// note, changed by a signal of this kind, for the note's source.
pub proof fn law_signal_is_recorded(
    note: Option<&Fields>,
    existing: Option<&Fields>,
    note_id: &str,
    kind: NoteSignalKind,
    now: i64,
    draft: Option<SignalDraft>,
)
    requires
        call_ensures(record_note_signal, (note, existing, note_id, kind, now), draft),
    ensures
        draft is Some <==> note is Some && !holds(note->Some_0@, "deleted"@, JsonV::Bool(true)),
        draft matches Some(d) ==> {
            let row = note->Some_0@;
            let source = if row.contains_key("source"@) && row["source"@] is Str {
                Some(row["source"@]->Str_0)
            } else {
                None
            };
            &&& d.note_id@ == note_id@
            &&& d.before == stored_state(row_view(existing), source)
            &&& d.after == changed(d.before, SignalChange::Recorded(kind), now)
            &&& d.updated_at == now
        },
{
    if let Some(d) = draft {
        assert(d@.after == d.after && d@.before == d.before && d@.note_id == d.note_id@);
    }
}

/// What the tombstone of a signal row is scored from: what is stored, unless it is retired already.
pub proof fn law_tombstone_is_scored(
    existing: Option<&Fields>,
    source: Option<&String>,
    inputs: Option<ScoreInputs>,
)
    requires
        call_ensures(tombstone_inputs, (existing, source), inputs),
    ensures
        inputs is None <==> existing is Some && holds(
            existing->Some_0@,
            "deleted"@,
            JsonV::Bool(true),
        ),
        inputs matches Some(i) ==> {
            let state = stored_state(
                row_view(existing),
                match source {
                    Some(s) => Some(s@),
                    None => None,
                },
            );
            &&& i.source_prior == state.source_prior
            &&& i.return_visits == state.return_visits
            &&& i.has_annotation == state.has_annotation
            &&& i.stitch_spawns == state.stitch_spawns
        },
{
}

/// Registering an embedder reports a change if and only if vectors were dropped, how many, and how
/// many notes wait; a pass reports its own counts.
pub proof fn law_embedding_is_reported(
    invalidated: usize,
    pending: i64,
    registered: RegisterEmbedderSummary,
    pass: &EmbedPass,
    summary: EmbedSummary,
)
    requires
        call_ensures(register_summary, (invalidated, pending), registered),
        call_ensures(EmbedPass::summary, (pass, pending), summary),
    ensures
        registered.corpus_changed <==> invalidated > 0,
        invalidated <= u32::MAX ==> registered.invalidated == invalidated,
        0 <= pending <= u32::MAX ==> registered.pending == pending && summary.pending == pending,
        pending < 0 ==> registered.pending == 0 && summary.pending == 0,
        summary.attempted == pass.attempted,
        summary.embedded == pass.embedded,
        summary.skipped == pass.skipped,
        summary.failed == pass.failed,
{
}

/// A search looks for something if and only if its query is not blank and it may find something.
pub proof fn law_search_is_wanted(query: &str, limit: u32, yes: bool)
    requires
        call_ensures(wants_search, (query, limit), yes),
    ensures
        yes <==> !blank(query@) && limit > 0,
{
    law_trimming_takes_white_space_only(query@);
}

/// A note, a custom idea, a lens, a collection and a membership are written to their own tables under
/// their own keys.
pub proof fn law_writes_go_to_their_tables(
    draft: NoteDraft,
    seal: Option<&SealedText>,
    note: Write,
    id: &str,
    name: &str,
    text: Option<&String>,
    leaves: &Vec<String>,
    threshold: Option<i64>,
    created_at: i64,
    now: i64,
    deleted: bool,
    idea: Write,
    lens: Write,
    collection: Write,
)
    requires
        call_ensures(note_write, (draft, seal), note),
        call_ensures(enqueue_custom_idea, (id, name, text, created_at, now, deleted), idea),
        call_ensures(
            enqueue_lens,
            (id, name, leaves, text, threshold, created_at, now, deleted),
            lens,
        ),
        call_ensures(enqueue_collection, (id, name, created_at, now, deleted), collection),
    ensures
        note.table@ == "notes"@ && note.record_id@ == draft.id@,
        note.row@ == note_row(draft, opt_seal(seal)),
        idea.table@ == "custom_ideas"@ && idea.record_id@ == id@,
        holds(idea.row@, "id"@, JsonV::Str(id@)) && holds(idea.row@, "name"@, JsonV::Str(name@)),
        lens.table@ == "lenses"@ && lens.record_id@ == id@,
        holds(lens.row@, "id"@, JsonV::Str(id@)) && holds(lens.row@, "name"@, JsonV::Str(name@)),
        collection.table@ == "collections"@ && collection.record_id@ == id@,
        holds(collection.row@, "id"@, JsonV::Str(id@)) && holds(
            collection.row@,
            "name"@,
            JsonV::Str(name@),
        ),
{
    assert(note@.row == note.row@ && note@.table == note.table@ && note@.record_id
        == note.record_id@);
    assert(idea@.row == idea.row@ && idea@.table == idea.table@ && idea@.record_id
        == idea.record_id@);
    assert(lens@.row == lens.row@ && lens@.table == lens.table@ && lens@.record_id
        == lens.record_id@);
    assert(collection@.row == collection.row@ && collection@.table == collection.table@
        && collection@.record_id == collection.record_id@);
    let described = match text {
        Some(s) => Some(s@),
        None => None,
    };
    crate::write_laws::law_custom_idea_is_written_whole(
        id@,
        name@,
        described,
        created_at,
        now,
        deleted,
    );
    crate::write_laws::law_lens_is_written_whole(
        id@,
        name@,
        crate::json::texts_view(leaves@),
        described,
        threshold,
        created_at,
        now,
        deleted,
    );
    crate::write_laws::law_collection_is_written_whole(id@, name@, created_at, now, deleted);
}

/// A membership is written to its own table under the collection's key, a colon and the note's, with
/// both keys, the time of filing, and its mark.
pub proof fn law_membership_is_enqueued(
    existing: Option<&Fields>,
    note_id: &str,
    collection_id: &str,
    created_at: i64,
    now: i64,
    deleted: bool,
    write: Write,
)
    requires
        call_ensures(
            enqueue_collection_membership,
            (existing, note_id, collection_id, created_at, now, deleted),
            write,
        ),
    ensures
        write.table@ == "collection_memberships"@,
        write.record_id@ == collection_id@ + ":"@ + note_id@,
        holds(write.row@, "id"@, JsonV::Str(write.record_id@)),
        holds(write.row@, "note_id"@, JsonV::Str(note_id@)),
        holds(write.row@, "collection_id"@, JsonV::Str(collection_id@)),
        holds_integer(write.row@, "updated_at"@, now as int),
        holds(write.row@, "deleted"@, JsonV::Bool(deleted)),
        !deleted || existing is None ==> holds_integer(
            write.row@,
            "created_at"@,
            created_at as int,
        ),
{
    assert(write@.row == write.row@ && write@.table == write.table@ && write@.record_id
        == write.record_id@);
    crate::write_laws::law_membership_is_written_whole(
        row_view(existing),
        note_id@,
        collection_id@,
        created_at,
        now,
        deleted,
    );
}

/// A book is resolved to the end of its chain of merges.
pub proof fn law_book_is_resolved(book: &str, remap: &IdRemap, resolved: String)
    requires
        call_ensures(resolve_book_id, (book, remap), resolved),
    ensures
        exists|chain: Seq<Seq<char>>| #[trigger]
            crate::collapse_laws::leads_along(remap@, book@, chain) && resolved@ == chain.last(),
{
    crate::collapse_laws::law_book_is_resolved_along_merges(remap@, book@);
}

/// Whether a request is one of the client's: to an address, with its key and token, and with the
/// headers of a write that prefers this, or without any others.
pub open spec fn is_request(
    result: Result<Request, String>,
    client: &PostgrestClient,
    method: Method,
    url: Seq<char>,
    prefer: Option<Seq<char>>,
) -> bool {
    if client.access_token is Some && fits_in_a_header(client.anon_key@) && fits_in_a_header(
        "Bearer "@ + client.access_token->Some_0@,
    ) {
        result matches Ok(r) && {
            let headers = crate::http::headers_view(r.headers@);
            &&& r.method == method
            &&& r.url@ == url
            &&& headers.len() == if prefer is Some {
                4int
            } else {
                2
            }
            &&& headers[0] == ("apikey"@, client.anon_key@)
            &&& headers[1] == ("authorization"@, "Bearer "@ + client.access_token->Some_0@)
            &&& prefer matches Some(p) ==> headers[2] == ("content-type"@, "application/json"@)
                && headers[3] == ("prefer"@, p)
        }
    } else {
        result is Err
    }
}

/// Rows are written with a post that merges duplicates by the given column, pages are read behind a
/// sequence number in its order, and a setting is read by its key, each at its own address.
pub proof fn law_requests_of_a_client(
    client: &PostgrestClient,
    table: &str,
    column: &str,
    written: Result<Request, String>,
    after: i64,
    limit: i64,
    page: Result<Request, String>,
    key: &str,
    setting: Result<Request, String>,
)
    requires
        call_ensures(PostgrestClient::upsert_request, (client, table, column), written),
        call_ensures(PostgrestClient::page_request, (client, table, after, limit), page),
        call_ensures(PostgrestClient::config_request, (client, key), setting),
    ensures
        is_request(
            written,
            client,
            Method::Post,
            crate::http::upsert_url(client.base_url@, table@, column@),
            Some("resolution=merge-duplicates, return=minimal"@),
        ),
        is_request(
            page,
            client,
            Method::Get,
            crate::http::page_url(client.base_url@, table@, after, limit),
            None,
        ),
        is_request(
            setting,
            client,
            Method::Get,
            crate::http::config_url(client.base_url@, key@),
            None,
        ),
{
    lemma_header_value(client.anon_key@);
    if client.access_token is Some {
        lemma_header_value("Bearer "@ + client.access_token->Some_0@);
    }
}

proof fn lemma_header_value(text: Seq<char>)
    ensures
        fits_in_a_header(text) <==> crate::http::header_value(text),
{
}

/// A patch of a row goes to the row's own key with a patch, and rows are read by their keys with one
/// filter of them all.
pub proof fn law_requests_by_key(
    client: &PostgrestClient,
    table: &str,
    column: &str,
    id: &str,
    patch: Result<Request, String>,
    url: Seq<char>,
)
    requires
        call_ensures(PostgrestClient::patch_request, (client, table, column, id), patch),
        crate::http::url_with_pair(
            client.base_url@ + "/rest/v1/"@ + table@,
            column@,
            "eq."@ + id@,
        ) == Ok::<Seq<char>, Seq<char>>(url),
    ensures
        is_request(patch, client, Method::Patch, url, Some("return=minimal"@)),
{
    lemma_header_value(client.anon_key@);
    if client.access_token is Some {
        lemma_header_value("Bearer "@ + client.access_token->Some_0@);
    }
}

/// A pull or a sync begins if and only if there is a token, and a sync only if the token names a
/// user; both begin with the pull of every table.
pub proof fn law_session_begins(
    goal: Goal,
    token: Option<&str>,
    tables: usize,
    begun: (Session, SessionStep),
)
    requires
        call_ensures(Session::start, (goal, token, tables), begun),
    ensures
        begun.1 is Pull <==> token is Some && (goal == Goal::Pull || crate::http::jwt_user(
            token->Some_0@,
        ) is Ok),
        begun.1 is Pull || begun.1 is Failed,
        begun.1 is Pull ==> begun.0 is Pulling && begun.0->Pulling_goal == goal
            && begun.0->Pulling_tables == tables,
        begun.1 is Failed ==> begun.0 is Over,
        token is None ==> crate::report_laws::fails(
            begun.1,
            "no access token set — call set_access_token before "@ + (if goal == Goal::Pull {
                "pull"@
            } else {
                "sync"@
            }),
        ),
{
}

/// A name is that of a table to pull if and only if a synced table has it.
pub proof fn law_pull_targets(name: &str, result: Result<Table, String>, table: Table)
    requires
        call_ensures(pull_target, (name,), result),
    ensures
        result matches Ok(t) ==> table_name(t) == name@,
        table_name(table) == name@ ==> result is Ok,
        result matches Err(message) ==> message@ == "unknown synced table: "@ + name@,
{
}

/// A write is stamped with now, or with the next moment where what is stored is not older.
pub proof fn law_writes_are_stamped_later(now: i64, stored: i64, stamp: i64)
    requires
        call_ensures(later_stamp, (now, stored), stamp),
        stored < i64::MAX,
    ensures
        stamp >= now && stamp > stored,
        stamp == now || stamp == stored + 1,
{
}

/// An edge touches both its ends; it is a margin edge of its parent unless it names another relation,
/// and the margin edge of the child at its other end alone.
pub proof fn law_edges_and_their_ends(
    link: &NoteLinkRecord,
    parent: &str,
    child: &str,
    touching: bool,
    margin: bool,
    own: bool,
)
    requires
        call_ensures(link_touches, (link, child), touching),
        call_ensures(is_margin_of, (link, parent), margin),
        call_ensures(is_own_margin, (link, parent, child), own),
    ensures
        touching <==> link.from_note_id@ == child@ || link.to_note_id@ == child@,
        margin <==> link.from_note_id@ == parent@ && (link.relation_type is None
            || link.relation_type->Some_0@ == "handwritten_annotation"@),
        own <==> margin && link.to_note_id@ == child@,
{
}

/// A reply is taken if and only if its status says success; else the error holds the status and the
/// whole reply. A refused search says the same.
pub proof fn law_replies_are_judged_by_status(
    status: u16,
    body: &str,
    result: Result<(), PostgrestError>,
    told: &str,
    message: String,
)
    requires
        call_ensures(check_status, (status, body), result),
        call_ensures(search_refused, (told, body), message),
    ensures
        result is Ok <==> 200 <= status <= 299,
        result matches Err(e) ==> e.status == status && e.body@ == body@,
        message@ == "Open Library search HTTP "@ + told@ + ": "@ + body@,
{
}

/// A pull is clean if and only if no table failed; an import, a flush and a reconciliation are told
/// with all their counts.
pub proof fn law_counts_are_told(
    result: &PullResult,
    clean: bool,
    version: u32,
    selection: Selection,
    imported: ImportSummary,
    pushed: usize,
    queued: usize,
    flushed: FlushSummary,
    done: &ReconcileResult,
    reconciled: ReconcileSummary,
)
    requires
        call_ensures(is_clean, (result,), clean),
        call_ensures(import_summary, (version, selection), imported),
        call_ensures(flush_summary, (pushed, queued), flushed),
        call_ensures(ReconcileSummary::of, (done,), reconciled),
    ensures
        clean <==> result.failed_tables@.len() == 0,
        imported.schema_version == version,
        imported.imported == selection.imported,
        imported.skipped_stale == selection.skipped_stale,
        pushed <= u32::MAX ==> flushed.pushed == pushed,
        queued <= u32::MAX ==> flushed.still_queued == queued,
        done.books_backfilled <= u32::MAX ==> reconciled.books_backfilled == done.books_backfilled,
        done.notes_rehomed <= u32::MAX ==> reconciled.notes_rehomed == done.notes_rehomed,
        done.notes_detached <= u32::MAX ==> reconciled.notes_detached == done.notes_detached,
        done.ideas_created <= u32::MAX ==> reconciled.ideas_created == done.ideas_created,
        done.dupes_collapsed <= u32::MAX ==> reconciled.dupes_collapsed == done.dupes_collapsed,
        done.signals_retired <= u32::MAX ==> reconciled.signals_retired == done.signals_retired,
        done.covers_resolved <= u32::MAX ==> reconciled.covers_resolved == done.covers_resolved,
{
}

/// While an import fetches, a failed request ends it with the one message that tells nothing of the
/// server; a taken answer leads to the next request, and behind the last to the local rows. What was
/// known stays known.
pub proof fn law_fetching_goes_on(
    run: ImportRun,
    returned: Option<Vec<Json>>,
    next: (ImportRun, ImportStep),
)
    requires
        call_ensures(ImportRun::take_fetched, (run, returned), next),
        run.wf(),
        run is Fetching,
    ensures
        returned is None ==> next.0 is Over && next.1 is Failed,
        next.1 is Fetch || next.1 is Read || next.1 is Failed,
        next.1 is Failed ==> next.0 is Over && (next.1->Failed_0 matches SyncError::Flush(
            message,
        ) && message@ == "snapshot import server preflight failed"@),
        next.1 matches ImportStep::Fetch(request) ==> {
            &&& run->at + 1 < run->requests@.len()
            &&& request@ == run->requests@[run->at + 1]@
            &&& next.0 is Fetching
            &&& next.0->requests@ == run->requests@
            &&& next.0->at == run->at + 1
            &&& next.0->Fetching_import == run->Fetching_import
            &&& next.0->Fetching_now == run->Fetching_now
        },
        next.1 is Read ==> {
            &&& run->at + 1 == run->requests@.len()
            &&& next.0 is Selecting
            &&& next.0->Selecting_import == run->Fetching_import
            &&& next.0->Selecting_now == run->Fetching_now
        },
{
}

/// A JSON value is read as what it is, and as nothing else.
pub proof fn law_values_are_read_as_they_are(
    value: &Json,
    text: Option<&String>,
    flag: Option<bool>,
    count: Option<u64>,
)
    requires
        call_ensures(Json::as_str, (value,), text),
        call_ensures(Json::as_bool, (value,), flag),
        call_ensures(Json::as_u64, (value,), count),
    ensures
        text is Some <==> value@ is Str,
        text matches Some(t) ==> value@ == JsonV::Str(t@),
        flag is Some <==> value@ is Bool,
        flag matches Some(f) ==> value@ == JsonV::Bool(f),
        count is Some <==> value@ is Num && value@->Num_0 is PosInt,
        count matches Some(n) ==> value@ == JsonV::Num(Number::PosInt(n)),
{
}

} // verus!
