//! What replacing a note's margins writes, told from the stored rows and edges.

use crate::annotations::{
    child_refusal, children_view, file_margins, has_child_id, has_child_link, has_link_id,
    kept_children, law_filing_writes_the_margins, law_replace_converges, link_tombstone,
    margin_note_row, margins_of, note_tombstone, planned, refusal, replace_batch, replace_refusal,
    retire_edges, spent_margin, touched_outside, uses_id, ChildV, ReplacePlan, SealV,
};
use crate::json::{JsonV, RowV};
use crate::mirror::{LinkV, Mirror};
use crate::names::lemma_column_names;
use crate::tables::Table;
use crate::text::{blank, law_trimming_takes_white_space_only, surrounded, trimmed, whitespace};
use crate::types::WriteV;
use crate::write_laws::{holds, holds_integer, law_edge_is_written_whole};
use vstd::prelude::*;

verus! {

/// Whether an edge is a margin edge from a parent: it has the margins' relation, or none.
pub open spec fn is_margin(edge: LinkV, parent: Seq<char>) -> bool {
    edge.from == parent && (edge.relation is None || edge.relation == Some(
        "handwritten_annotation"@,
    ))
}

/// Whether a stored note is handwritten and not deleted.
pub open spec fn is_live_handwriting(mirror: Mirror, id: Seq<char>) -> bool {
    match mirror.row_of(Table::Notes, id) {
        Some(row) => holds(row, "source"@, JsonV::Str("handwritten"@)) && !holds(
            row,
            "deleted"@,
            JsonV::Bool(true),
        ),
        None => false,
    }
}

/// Whether every live edge at a note is, by its key, a margin edge of the parent.
pub open spec fn only_margins_touch(edges: Seq<LinkV>, parent: Seq<char>, id: Seq<char>) -> bool {
    forall|k: int|
        #![trigger edges[k]]
        0 <= k < edges.len() && (edges[k].from == id || edges[k].to == id) ==> exists|j: int|
            0 <= j < edges.len() && is_margin(#[trigger] edges[j], parent) && edges[j].id
                == edges[k].id
}

/// Whether a write is the tombstone of a note: a patch of its key, the mark of deletion and the
/// time, and of nothing else.
pub open spec fn retires_note(write: WriteV, id: Seq<char>, now: i64) -> bool {
    &&& write.table == "notes"@
    &&& write.record_id == id
    &&& holds(write.row, "id"@, JsonV::Str(id))
    &&& holds(write.row, "deleted"@, JsonV::Bool(true))
    &&& holds_integer(write.row, "updated_at"@, now as int)
    &&& write.row.dom().len() == 3
}

/// Whether a write is the tombstone of an edge: the whole edge as it is stored, marked deleted.
pub open spec fn retires_edge(write: WriteV, edge: LinkV, stamp: int) -> bool {
    &&& write.table == "note_links"@
    &&& write.record_id == edge.id
    &&& holds(write.row, "id"@, JsonV::Str(edge.id))
    &&& holds(write.row, "from_note_id"@, JsonV::Str(edge.from))
    &&& holds(write.row, "to_note_id"@, JsonV::Str(edge.to))
    &&& match edge.relation {
        Some(s) => holds(write.row, "relation_type"@, JsonV::Str(s)),
        None => holds(write.row, "relation_type"@, JsonV::Str("handwritten_annotation"@)),
    }
    &&& holds_integer(write.row, "created_at"@, edge.created_at as int)
    &&& holds_integer(write.row, "updated_at"@, stamp)
    &&& holds(write.row, "deleted"@, JsonV::Bool(true))
    &&& write.row.dom().len() == 7
}

proof fn lemma_margins_of(links: Seq<LinkV>, parent: Seq<char>, edge: LinkV)
    ensures
        margins_of(links, parent).contains(edge) <==> exists|i: int|
            0 <= i < links.len() && is_margin(#[trigger] links[i], parent) && links[i] == edge,
    decreases links.len(),
{
    if links.len() > 0 {
        let before = links.drop_last();
        let held = margins_of(before, parent);
        let all = margins_of(links, parent);
        lemma_margins_of(before, parent, edge);
        if held.contains(edge) {
            let k = choose|k: int| 0 <= k < held.len() && held[k] == edge;
            assert(all[k] == edge);
            let i = choose|i: int|
                0 <= i < before.len() && is_margin(#[trigger] before[i], parent) && before[i]
                    == edge;
            assert(links[i] == edge);
        }
        if all.contains(edge) {
            let k = choose|k: int| 0 <= k < all.len() && all[k] == edge;
            if k < held.len() {
                assert(held[k] == edge);
            } else {
                assert(is_margin(links[links.len() - 1], parent));
            }
        }
        if exists|i: int|
            0 <= i < links.len() && is_margin(#[trigger] links[i], parent) && links[i] == edge {
            let i = choose|i: int|
                0 <= i < links.len() && is_margin(#[trigger] links[i], parent) && links[i] == edge;
            if i < before.len() {
                assert(before[i] == edge);
            } else {
                assert(all[held.len() as int] == edge);
            }
        }
    }
}

proof fn lemma_margin_ids(links: Seq<LinkV>, parent: Seq<char>, id: Seq<char>)
    ensures
        has_link_id(margins_of(links, parent), id) <==> exists|i: int|
            0 <= i < links.len() && is_margin(#[trigger] links[i], parent) && links[i].id == id,
{
    let prior = margins_of(links, parent);
    if has_link_id(prior, id) {
        let k = choose|k: int| 0 <= k < prior.len() && (#[trigger] prior[k]).id == id;
        assert(prior.contains(prior[k]));
        lemma_margins_of(links, parent, prior[k]);
    }
    if exists|i: int|
        0 <= i < links.len() && is_margin(#[trigger] links[i], parent) && links[i].id == id {
        let i = choose|i: int|
            0 <= i < links.len() && is_margin(#[trigger] links[i], parent) && links[i].id == id;
        lemma_margins_of(links, parent, links[i]);
        let k = choose|k: int| 0 <= k < prior.len() && prior[k] == links[i];
        assert(prior[k].id == id);
    }
}

proof fn lemma_spent(mirror: Mirror, parent: Seq<char>, id: Seq<char>)
    ensures
        spent_margin(mirror, id, margins_of(mirror.edges(), parent)) <==> is_live_handwriting(
            mirror,
            id,
        ) && only_margins_touch(mirror.edges(), parent, id),
{
    let edges = mirror.edges();
    let prior = margins_of(edges, parent);
    assert(touched_outside(edges, id, prior) <==> !only_margins_touch(edges, parent, id)) by {
        assert forall|k: int| 0 <= k < edges.len() implies (has_link_id(
            prior,
            (#[trigger] edges[k]).id,
        ) <==> exists|j: int|
            0 <= j < edges.len() && is_margin(#[trigger] edges[j], parent) && edges[j].id
                == edges[k].id) by {
            lemma_margin_ids(edges, parent, edges[k].id);
        }
        if touched_outside(edges, id, prior) {
            let i = choose|i: int|
                0 <= i < edges.len() && crate::mirror::touches(#[trigger] edges[i], id)
                    && !has_link_id(prior, edges[i].id);
            assert(edges[i].from == id || edges[i].to == id);
        }
    }
}

proof fn lemma_retired_notes(
    mirror: Mirror,
    parent: Seq<char>,
    children: Seq<ChildV>,
    prior: Seq<LinkV>,
    edges: Seq<LinkV>,
    now: i64,
    id: Seq<char>,
)
    ensures
        ({
            let done = retire_edges(mirror, parent, children, prior, edges, now);
            &&& done.notes.contains(id) ==> done.writes.contains(note_tombstone(id, now))
            &&& !has_child_id(children, id) && id != parent && spent_margin(mirror, id, prior)
                && (exists|e: int| 0 <= e < edges.len() && (#[trigger] edges[e]).to == id)
                ==> done.notes.contains(id)
        }),
    decreases edges.len(),
{
    if edges.len() > 0 {
        let rest = edges.drop_last();
        let before = retire_edges(mirror, parent, children, prior, rest, now);
        let done = retire_edges(mirror, parent, children, prior, edges, now);
        lemma_retired_notes(mirror, parent, children, prior, rest, now, id);
        if before.notes.contains(id) {
            let k = choose|k: int| 0 <= k < before.notes.len() && before.notes[k] == id;
            assert(done.notes[k] == id);
            let w = choose|w: int|
                0 <= w < before.writes.len() && before.writes[w] == note_tombstone(id, now);
            assert(done.writes[w] == note_tombstone(id, now));
        } else if done.notes.contains(id) {
            assert(done.notes.len() == before.notes.len() + 1);
            assert(done.notes.last() == id) by {
                let k = choose|k: int| 0 <= k < done.notes.len() && done.notes[k] == id;
                if k < before.notes.len() {
                    assert(before.notes[k] == id);
                }
            }
            assert(done.writes[done.writes.len() - 1] == note_tombstone(id, now));
        } else if !has_child_id(children, id) && id != parent && spent_margin(mirror, id, prior)
            && exists|e: int| 0 <= e < edges.len() && (#[trigger] edges[e]).to == id {
            let e = choose|e: int| 0 <= e < edges.len() && (#[trigger] edges[e]).to == id;
            if e < rest.len() {
                assert(rest[e].to == id);
            } else {
                assert(done.notes[done.notes.len() - 1] == id);
            }
        }
    }
}

/// Replacing margins deletes every spent one. A note that a margin edge of the parent leads to, that
/// is stored, handwritten and not deleted, is not the parent and not among the new margins, and is
/// touched by no live edge but the parent's margin edges, is tombstoned in the batch, whatever else
/// its row holds.
pub proof fn law_replace_deletes_every_spent_margin(
    mirror: Mirror,
    parent: Seq<char>,
    book: Option<Seq<char>>,
    children: Seq<ChildV>,
    seals: Seq<SealV>,
    now: i64,
    signal: Option<RowV>,
    n: int,
)
    requires
        children.len() > 0,
        0 <= n < mirror.edges().len(),
        is_margin(mirror.edges()[n], parent),
        mirror.edges()[n].to != parent,
        forall|c: int|
            0 <= c < children.len() ==> (#[trigger] children[c]).id != mirror.edges()[n].to,
        is_live_handwriting(mirror, mirror.edges()[n].to),
        only_margins_touch(mirror.edges(), parent, mirror.edges()[n].to),
    ensures
        exists|w: int|
            0 <= w < replace_batch(mirror, parent, book, children, seals, now, signal).len()
                && retires_note(
                #[trigger] replace_batch(mirror, parent, book, children, seals, now, signal)[w],
                mirror.edges()[n].to,
                now,
            ),
{
    let edges = mirror.edges();
    let id = edges[n].to;
    let prior = margins_of(edges, parent);
    lemma_spent(mirror, parent, id);
    lemma_margins_of(edges, parent, edges[n]);
    let k = choose|k: int| 0 <= k < prior.len() && prior[k] == edges[n];
    assert(prior[k].to == id);
    lemma_retired_notes(mirror, parent, children, prior, prior, now, id);
    let filed = file_margins(children, parent, book, seals, now);
    let retired = retire_edges(mirror, parent, children, prior, prior, now).writes;
    let tomb = note_tombstone(id, now);
    let r = choose|r: int| 0 <= r < retired.len() && retired[r] == tomb;
    let batch = replace_batch(mirror, parent, book, children, seals, now, signal);
    assert((filed + retired)[filed.len() + r] == tomb);
    assert(batch[filed.len() + r] == tomb);
    lemma_note_tombstone(id, now);
}

proof fn lemma_note_tombstone(id: Seq<char>, now: i64)
    ensures
        retires_note(note_tombstone(id, now), id, now),
{
    lemma_column_names();
    assert(note_tombstone(id, now).row.dom() =~= Set::empty().insert("id"@).insert(
        "deleted"@,
    ).insert("updated_at"@));
}

proof fn lemma_edge_tombstone(edge: LinkV, stamp: i64)
    ensures
        retires_edge(link_tombstone(edge, stamp), edge, stamp as int),
{
    law_edge_is_written_whole(
        edge.id,
        edge.from,
        edge.to,
        match edge.relation {
            Some(s) => s,
            None => "handwritten_annotation"@,
        },
        edge.created_at,
        stamp,
        true,
    );
}

/// Replacing margins retires every margin edge of the parent that is not filed anew, as it is
/// stored and at the time of the replacement.
pub proof fn law_replace_retires_every_prior_edge(
    mirror: Mirror,
    parent: Seq<char>,
    book: Option<Seq<char>>,
    children: Seq<ChildV>,
    seals: Seq<SealV>,
    now: i64,
    signal: Option<RowV>,
    n: int,
)
    requires
        children.len() > 0,
        0 <= n < mirror.edges().len(),
        is_margin(mirror.edges()[n], parent),
        forall|c: int|
            0 <= c < children.len() ==> (#[trigger] children[c]).link_id != mirror.edges()[n].id,
    ensures
        exists|w: int|
            0 <= w < replace_batch(mirror, parent, book, children, seals, now, signal).len()
                && retires_edge(
                #[trigger] replace_batch(mirror, parent, book, children, seals, now, signal)[w],
                mirror.edges()[n],
                now as int,
            ),
{
    let edge = mirror.edges()[n];
    let prior = margins_of(mirror.edges(), parent);
    lemma_margins_of(mirror.edges(), parent, edge);
    let k = choose|k: int| 0 <= k < prior.len() && prior[k] == edge;
    law_replace_converges(mirror, parent, book, children, seals, now, signal, k);
    let batch = replace_batch(mirror, parent, book, children, seals, now, signal);
    let w = choose|w: int| 0 <= w < batch.len() && batch[w] == link_tombstone(edge, now);
    lemma_edge_tombstone(edge, now);
    assert(retires_edge(batch[w], edge, now as int));
}

/// Whether two writes file a margin: its note, whole, with the sealed text, the parent's book, the
/// handwritten source and nothing else of a row that its key may have had, and its edge from the
/// parent, both live and of one time.
pub open spec fn files_margin(
    note: WriteV,
    edge: WriteV,
    child: ChildV,
    parent: Seq<char>,
    book: Option<Seq<char>>,
    seal: SealV,
    at: int,
) -> bool {
    &&& note.table == "notes"@
    &&& note.record_id == child.id
    &&& holds(note.row, "id"@, JsonV::Str(child.id))
    &&& holds(note.row, "text"@, JsonV::Str(seal.ciphertext))
    &&& holds(note.row, "content_tag"@, JsonV::Str(seal.content_tag))
    &&& match book {
        Some(b) => holds(note.row, "book_id"@, JsonV::Str(b)),
        None => holds(note.row, "book_id"@, JsonV::Null),
    }
    &&& match child.ink_crop_path {
        Some(path) => holds(note.row, "ink_crop_path"@, JsonV::Str(path)),
        None => holds(note.row, "ink_crop_path"@, JsonV::Null),
    }
    &&& holds(note.row, "source"@, JsonV::Str("handwritten"@))
    &&& holds(note.row, "tags"@, JsonV::Arr(Seq::empty()))
    &&& holds(note.row, "page"@, JsonV::Str(Seq::empty()))
    &&& holds(note.row, "chapter"@, JsonV::Null)
    &&& holds(note.row, "image_path"@, JsonV::Null)
    &&& holds(note.row, "source_id"@, JsonV::Null)
    &&& holds(note.row, "source_meta"@, JsonV::Obj(Map::empty()))
    &&& holds_integer(note.row, "created_at"@, at)
    &&& holds_integer(note.row, "updated_at"@, at)
    &&& holds(note.row, "deleted"@, JsonV::Bool(false))
    &&& note.row.dom().len() == 15
    &&& edge.table == "note_links"@
    &&& edge.record_id == child.link_id
    &&& holds(edge.row, "id"@, JsonV::Str(child.link_id))
    &&& holds(edge.row, "from_note_id"@, JsonV::Str(parent))
    &&& holds(edge.row, "to_note_id"@, JsonV::Str(child.id))
    &&& holds(edge.row, "relation_type"@, JsonV::Str("handwritten_annotation"@))
    &&& holds_integer(edge.row, "created_at"@, at)
    &&& holds_integer(edge.row, "updated_at"@, at)
    &&& holds(edge.row, "deleted"@, JsonV::Bool(false))
    &&& edge.row.dom().len() == 7
}

/// Replacing margins files each new margin, in order, ahead of everything else: its note and its
/// edge stand at twice its place, stamped one later for each margin before it. The batch ends with
/// the parent's signal row, where there is one to write.
pub proof fn law_replace_files_every_margin(
    mirror: Mirror,
    parent: Seq<char>,
    book: Option<Seq<char>>,
    children: Seq<ChildV>,
    seals: Seq<SealV>,
    now: i64,
    signal: Option<RowV>,
    n: int,
)
    requires
        0 <= n < children.len(),
        now + children.len() <= i64::MAX + 1,
    ensures
        ({
            let batch = replace_batch(mirror, parent, book, children, seals, now, signal);
            &&& batch.len() >= 2 * children.len()
            &&& files_margin(
                batch[2 * n],
                batch[2 * n + 1],
                children[n],
                parent,
                book,
                seals[n],
                now + n,
            )
            &&& signal matches Some(row) ==> batch.len() > 2 * children.len() && batch.last() == (
            WriteV { table: "note_signals"@, record_id: parent, row })
        }),
{
    let batch = replace_batch(mirror, parent, book, children, seals, now, signal);
    let filed = file_margins(children, parent, book, seals, now);
    law_filing_writes_the_margins(children, parent, book, seals, now, n);
    assert(batch[2 * n] == filed[2 * n]);
    assert(batch[2 * n + 1] == filed[2 * n + 1]);
    let at = (now + n) as i64;
    law_edge_is_written_whole(
        children[n].link_id,
        parent,
        children[n].id,
        "handwritten_annotation"@,
        at,
        at,
        false,
    );
    lemma_margin_note(children[n], book, seals[n], at);
}

proof fn lemma_margin_note(child: ChildV, book: Option<Seq<char>>, seal: SealV, at: i64)
    ensures
        ({
            let row = margin_note_row(child, book, seal, at);
            &&& holds(row, "id"@, JsonV::Str(child.id))
            &&& holds(row, "text"@, JsonV::Str(seal.ciphertext))
            &&& holds(row, "content_tag"@, JsonV::Str(seal.content_tag))
            &&& match book {
                Some(b) => holds(row, "book_id"@, JsonV::Str(b)),
                None => holds(row, "book_id"@, JsonV::Null),
            }
            &&& match child.ink_crop_path {
                Some(path) => holds(row, "ink_crop_path"@, JsonV::Str(path)),
                None => holds(row, "ink_crop_path"@, JsonV::Null),
            }
            &&& holds(row, "source"@, JsonV::Str("handwritten"@))
            &&& holds(row, "tags"@, JsonV::Arr(Seq::empty()))
            &&& holds(row, "page"@, JsonV::Str(Seq::empty()))
            &&& holds(row, "chapter"@, JsonV::Null)
            &&& holds(row, "image_path"@, JsonV::Null)
            &&& holds(row, "source_id"@, JsonV::Null)
            &&& holds(row, "source_meta"@, JsonV::Obj(Map::empty()))
            &&& holds_integer(row, "created_at"@, at as int)
            &&& holds_integer(row, "updated_at"@, at as int)
            &&& holds(row, "deleted"@, JsonV::Bool(false))
            &&& row.dom().len() == 15
        }),
{
    lemma_column_names();
    reveal_strlit("");
    assert(""@ =~= Seq::<char>::empty());
    let row = margin_note_row(child, book, seal, at);
    assert(row.dom() =~= crate::annotations::note_column_names());
}

proof fn lemma_retirement(
    mirror: Mirror,
    parent: Seq<char>,
    children: Seq<ChildV>,
    prior: Seq<LinkV>,
    edges: Seq<LinkV>,
    now: i64,
    w: int,
)
    requires
        0 <= w < retire_edges(mirror, parent, children, prior, edges, now).writes.len(),
    ensures
        ({
            let write = retire_edges(mirror, parent, children, prior, edges, now).writes[w];
            ||| exists|e: int|
                0 <= e < edges.len() && !has_child_link(children, (#[trigger] edges[e]).id) && write
                    == link_tombstone(edges[e], now)
            ||| exists|e: int|
                0 <= e < edges.len() && !has_child_id(children, (#[trigger] edges[e]).to)
                    && edges[e].to != parent && spent_margin(mirror, edges[e].to, prior) && write
                    == note_tombstone(edges[e].to, now)
        }),
    decreases edges.len(),
{
    let rest = edges.drop_last();
    let before = retire_edges(mirror, parent, children, prior, rest, now);
    let done = retire_edges(mirror, parent, children, prior, edges, now);
    if w < before.writes.len() {
        lemma_retirement(mirror, parent, children, prior, rest, now, w);
        let write = before.writes[w];
        assert(done.writes[w] == write);
        if exists|e: int|
            0 <= e < rest.len() && !has_child_link(children, (#[trigger] rest[e]).id) && write
                == link_tombstone(rest[e], now) {
            let e = choose|e: int|
                0 <= e < rest.len() && !has_child_link(children, (#[trigger] rest[e]).id) && write
                    == link_tombstone(rest[e], now);
            assert(edges[e] == rest[e]);
        } else {
            let e = choose|e: int|
                0 <= e < rest.len() && !has_child_id(children, (#[trigger] rest[e]).to)
                    && rest[e].to != parent && spent_margin(mirror, rest[e].to, prior) && write
                    == note_tombstone(rest[e].to, now);
            assert(edges[e] == rest[e]);
        }
    } else {
        assert(edges[edges.len() - 1] == edges.last());
    }
}

/// Replacing margins writes nothing but the new margins, the tombstones of the parent's margin edges
/// that are not filed anew, the tombstones of spent margins, and the parent's signal row.
pub proof fn law_replace_writes_nothing_else(
    mirror: Mirror,
    parent: Seq<char>,
    book: Option<Seq<char>>,
    children: Seq<ChildV>,
    seals: Seq<SealV>,
    now: i64,
    signal: Option<RowV>,
    w: int,
)
    requires
        children.len() > 0,
        2 * children.len() <= w < replace_batch(
            mirror,
            parent,
            book,
            children,
            seals,
            now,
            signal,
        ).len(),
    ensures
        ({
            let batch = replace_batch(mirror, parent, book, children, seals, now, signal);
            let edges = mirror.edges();
            ||| exists|n: int|
                0 <= n < edges.len() && is_margin(#[trigger] edges[n], parent) && retires_edge(
                    batch[w],
                    edges[n],
                    now as int,
                ) && forall|c: int|
                    0 <= c < children.len() ==> (#[trigger] children[c]).link_id != edges[n].id
            ||| exists|n: int|
                0 <= n < edges.len() && is_margin(#[trigger] edges[n], parent) && retires_note(
                    batch[w],
                    edges[n].to,
                    now,
                ) && edges[n].to != parent && is_live_handwriting(mirror, edges[n].to)
                    && only_margins_touch(edges, parent, edges[n].to) && forall|c: int|
                    0 <= c < children.len() ==> (#[trigger] children[c]).id != edges[n].to
            ||| w == batch.len() - 1 && signal is Some && batch[w] == (WriteV {
                table: "note_signals"@,
                record_id: parent,
                row: signal->Some_0,
            })
        }),
{
    let batch = replace_batch(mirror, parent, book, children, seals, now, signal);
    let edges = mirror.edges();
    let prior = margins_of(edges, parent);
    let filed = file_margins(children, parent, book, seals, now);
    let retired = retire_edges(mirror, parent, children, prior, prior, now).writes;
    law_filing_writes_the_margins(children, parent, book, seals, now, 0);
    if w < filed.len() + retired.len() {
        let r = w - filed.len();
        assert(batch[w] == retired[r]);
        lemma_retirement(mirror, parent, children, prior, prior, now, r);
        if exists|e: int|
            0 <= e < prior.len() && !has_child_link(children, (#[trigger] prior[e]).id)
                && retired[r] == link_tombstone(prior[e], now) {
            let e = choose|e: int|
                0 <= e < prior.len() && !has_child_link(children, (#[trigger] prior[e]).id)
                    && retired[r] == link_tombstone(prior[e], now);
            assert(prior.contains(prior[e]));
            lemma_margins_of(edges, parent, prior[e]);
            lemma_edge_tombstone(prior[e], now);
            let n = choose|n: int|
                0 <= n < edges.len() && is_margin(#[trigger] edges[n], parent) && edges[n]
                    == prior[e];
            assert(retires_edge(batch[w], edges[n], now as int));
        } else {
            let e = choose|e: int|
                0 <= e < prior.len() && !has_child_id(children, (#[trigger] prior[e]).to)
                    && prior[e].to != parent && spent_margin(mirror, prior[e].to, prior)
                    && retired[r] == note_tombstone(prior[e].to, now);
            assert(prior.contains(prior[e]));
            lemma_margins_of(edges, parent, prior[e]);
            lemma_note_tombstone(prior[e].to, now);
            lemma_spent(mirror, parent, prior[e].to);
            let n = choose|n: int|
                0 <= n < edges.len() && is_margin(#[trigger] edges[n], parent) && edges[n]
                    == prior[e];
            assert(retires_note(batch[w], edges[n].to, now));
        }
    }
}

/// Whether margins are those of others that are not blank, each with its text trimmed and nothing
/// else changed, in order: `places` says where each comes from.
pub open spec fn keeps(children: Seq<ChildV>, kept: Seq<ChildV>, places: Seq<int>) -> bool {
    &&& places.len() == kept.len()
    &&& forall|i: int, j: int| 0 <= i < j < places.len() ==> places[i] < places[j]
    &&& forall|i: int|
        #![trigger places[i]]
        0 <= i < places.len() ==> {
            let child = children[places[i]];
            &&& 0 <= places[i] < children.len()
            &&& !blank(child.text)
            &&& kept[i].id == child.id
            &&& kept[i].link_id == child.link_id
            &&& kept[i].ink_crop_path == child.ink_crop_path
            &&& kept[i].text.len() > 0
            &&& !whitespace(kept[i].text[0])
            &&& !whitespace(kept[i].text.last())
            &&& exists|front: Seq<char>, back: Seq<char>| #[trigger]
                surrounded(child.text, front, kept[i].text, back)
        }
    &&& forall|c: int|
        #![trigger children[c]]
        0 <= c < children.len() && !blank(children[c].text) ==> places.contains(c)
}

proof fn lemma_kept(children: Seq<ChildV>) -> (places: Seq<int>)
    ensures
        keeps(children, kept_children(children), places),
    decreases children.len(),
{
    if children.len() == 0 {
        Seq::empty()
    } else {
        let rest = children.drop_last();
        let last = children.last();
        let kept = kept_children(children);
        let before = kept_children(rest);
        let held = lemma_kept(rest);
        law_trimming_takes_white_space_only(last.text);
        assert(children[children.len() - 1] == last);
        let places = if blank(last.text) {
            held
        } else {
            held.push(children.len() - 1)
        };
        assert forall|i: int|
            #![trigger places[i]]
            0 <= i < places.len() implies {
            let child = children[places[i]];
            &&& 0 <= places[i] < children.len()
            &&& !blank(child.text)
            &&& kept[i].id == child.id
            &&& kept[i].link_id == child.link_id
            &&& kept[i].ink_crop_path == child.ink_crop_path
            &&& kept[i].text.len() > 0
            &&& !whitespace(kept[i].text[0])
            &&& !whitespace(kept[i].text.last())
            &&& exists|front: Seq<char>, back: Seq<char>| #[trigger]
                surrounded(child.text, front, kept[i].text, back)
        } by {
            if i < held.len() {
                assert(places[i] == held[i]);
                assert(rest[held[i]] == children[held[i]]);
                assert(kept[i] == before[i]);
            }
        }
        assert forall|i: int, j: int| 0 <= i < j < places.len() implies places[i] < places[j] by {
            assert(places[i] == held[i]);
            if j < held.len() {
                assert(places[j] == held[j]);
            }
        }
        assert forall|c: int|
            #![trigger children[c]]
            0 <= c < children.len() && !blank(children[c].text) implies places.contains(c) by {
            if c < rest.len() {
                assert(rest[c] == children[c]);
                let k = choose|k: int| 0 <= k < held.len() && held[k] == c;
                assert(places[k] == c);
            } else {
                assert(places[places.len() - 1] == c);
            }
        }
        places
    }
}

/// The margins that are filed are those that are not blank, in order, each with its text without
/// the white space at its ends and its keys and picture unchanged.
pub proof fn law_margins_are_kept_trimmed(children: Seq<ChildV>)
    ensures
        exists|places: Seq<int>| #[trigger] keeps(children, kept_children(children), places),
{
    let places = lemma_kept(children);
    assert(keeps(children, kept_children(children), places));
}

/// Whether a margin may be filed: its keys are not the parent's, not used by a margin before it and
/// not the same; the stored edge under its edge's key, if there is one, is a margin edge of the
/// parent; the stored note under its key, if there is one, is handwritten and a margin of the
/// parent, by that stored edge or by a live one; and no live edge touches its key but the parent's
/// margin edges to it.
pub open spec fn may_be_filed(mirror: Mirror, parent: Seq<char>, children: Seq<ChildV>, n: int) -> bool {
    let child = children[n];
    let edges = mirror.edges();
    &&& child.id != parent && child.link_id != parent && child.id != child.link_id
    &&& forall|c: int|
        #![trigger children[c]]
        0 <= c < n ==> children[c].id != child.id && children[c].link_id != child.id
            && children[c].id != child.link_id && children[c].link_id != child.link_id
    &&& match mirror.row_of(Table::NoteLinks, child.link_id) {
        Some(row) => holds(row, "from_note_id"@, JsonV::Str(parent)) && (!row.contains_key(
            "relation_type"@,
        ) || !(row["relation_type"@] is Str) || row["relation_type"@] == JsonV::Str(
            "handwritten_annotation"@,
        )),
        None => true,
    }
    &&& match mirror.row_of(Table::Notes, child.id) {
        Some(note) => holds(note, "source"@, JsonV::Str("handwritten"@)) && {
            ||| mirror.row_of(Table::NoteLinks, child.link_id) matches Some(row) && holds(
                row,
                "to_note_id"@,
                JsonV::Str(child.id),
            )
            ||| exists|k: int|
                0 <= k < edges.len() && is_margin(#[trigger] edges[k], parent) && edges[k].to
                    == child.id
        },
        None => true,
    }
    &&& forall|k: int|
        #![trigger edges[k]]
        0 <= k < edges.len() && (edges[k].from == child.id || edges[k].to == child.id) ==> is_margin(
            edges[k],
            parent,
        ) && edges[k].to == child.id
}

proof fn lemma_child_accepted(mirror: Mirror, parent: Seq<char>, children: Seq<ChildV>, n: int)
    requires
        0 <= n < children.len(),
    ensures
        child_refusal(mirror, parent, children.take(n), children[n]) is None <==> may_be_filed(
            mirror,
            parent,
            children,
            n,
        ),
{
    let child = children[n];
    let before = children.take(n);
    let edges = mirror.edges();
    assert((uses_id(before, child.id) || uses_id(before, child.link_id)) <==> !(forall|c: int|
        #![trigger children[c]]
        0 <= c < n ==> children[c].id != child.id && children[c].link_id != child.id
            && children[c].id != child.link_id && children[c].link_id != child.link_id)) by {
        assert forall|c: int| 0 <= c < n implies #[trigger] children[c] == before[c] by {}
        if uses_id(before, child.id) {
            let c = choose|c: int|
                0 <= c < before.len() && ((#[trigger] before[c]).id == child.id
                    || before[c].link_id == child.id);
            assert(children[c] == before[c]);
        }
        if uses_id(before, child.link_id) {
            let c = choose|c: int|
                0 <= c < before.len() && ((#[trigger] before[c]).id == child.link_id
                    || before[c].link_id == child.link_id);
            assert(children[c] == before[c]);
        }
    }
    assert(crate::annotations::has_own_margin(edges, parent, child.id) <==> exists|k: int|
        0 <= k < edges.len() && is_margin(#[trigger] edges[k], parent) && edges[k].to
            == child.id) by {
        if crate::annotations::has_own_margin(edges, parent, child.id) {
            let k = choose|k: int|
                0 <= k < edges.len() && crate::mirror::own_margin(
                    #[trigger] edges[k],
                    parent,
                    child.id,
                );
            assert(is_margin(edges[k], parent));
        }
        if exists|k: int|
            0 <= k < edges.len() && is_margin(#[trigger] edges[k], parent) && edges[k].to
                == child.id {
            let k = choose|k: int|
                0 <= k < edges.len() && is_margin(#[trigger] edges[k], parent) && edges[k].to
                    == child.id;
            assert(crate::mirror::own_margin(edges[k], parent, child.id));
        }
    }
    assert(crate::annotations::has_foreign_edge(edges, parent, child.id) <==> !(forall|k: int|
        #![trigger edges[k]]
        0 <= k < edges.len() && (edges[k].from == child.id || edges[k].to == child.id) ==> is_margin(
            edges[k],
            parent,
        ) && edges[k].to == child.id)) by {
        if crate::annotations::has_foreign_edge(edges, parent, child.id) {
            let k = choose|k: int|
                0 <= k < edges.len() && crate::mirror::touches(#[trigger] edges[k], child.id)
                    && !crate::mirror::own_margin(edges[k], parent, child.id);
            assert(edges[k].from == child.id || edges[k].to == child.id);
        }
        if !(forall|k: int|
            #![trigger edges[k]]
            0 <= k < edges.len() && (edges[k].from == child.id || edges[k].to == child.id)
                ==> is_margin(edges[k], parent) && edges[k].to == child.id) {
            let k = choose|k: int|
                #![trigger edges[k]]
                0 <= k < edges.len() && (edges[k].from == child.id || edges[k].to == child.id) && !(
                is_margin(edges[k], parent) && edges[k].to == child.id);
            assert(crate::mirror::touches(edges[k], child.id) && !crate::mirror::own_margin(
                edges[k],
                parent,
                child.id,
            ));
        }
    }
}

/// Margins are accepted if and only if each of them may be filed.
pub proof fn law_margins_are_accepted(mirror: Mirror, parent: Seq<char>, children: Seq<ChildV>)
    ensures
        refusal(mirror, parent, children) is None <==> forall|n: int|
            0 <= n < children.len() ==> #[trigger] may_be_filed(mirror, parent, children, n),
    decreases children.len(),
{
    if children.len() > 0 {
        let rest = children.drop_last();
        let last = children.len() - 1;
        law_margins_are_accepted(mirror, parent, rest);
        lemma_child_accepted(mirror, parent, children, last);
        assert(children.take(last) =~= rest);
        assert forall|n: int| 0 <= n < last implies may_be_filed(mirror, parent, rest, n)
            == #[trigger] may_be_filed(mirror, parent, children, n) by {
            lemma_child_accepted(mirror, parent, children, n);
            lemma_child_accepted(mirror, parent, rest, n);
            assert(rest.take(n) =~= children.take(n));
            assert(rest[n] == children[n]);
        }
        if refusal(mirror, parent, children) is None {
            assert forall|n: int| 0 <= n < children.len() implies #[trigger] may_be_filed(
                mirror,
                parent,
                children,
                n,
            ) by {
                if n < last {
                    assert(may_be_filed(mirror, parent, rest, n));
                }
            }
        } else if forall|n: int|
            0 <= n < children.len() ==> #[trigger] may_be_filed(mirror, parent, children, n) {
            assert forall|n: int| 0 <= n < rest.len() implies #[trigger] may_be_filed(
                mirror,
                parent,
                rest,
                n,
            ) by {
                assert(may_be_filed(mirror, parent, children, n));
            }
            assert(may_be_filed(mirror, parent, children, last));
        }
    }
}

/// A replacement with margins to file is accepted if and only if the parent is stored and not
/// deleted and each margin may be filed; a parent that is not there is named in the refusal. Its
/// plan has the parent's key, the margins that are kept, and the book and source of the stored
/// parent where they are texts.
pub proof fn law_replacement_is_planned(
    mirror: Mirror,
    parent: Seq<char>,
    children: Seq<ChildV>,
    plan: ReplacePlan,
)
    requires
        kept_children(children).len() > 0,
    ensures
        ({
            let stored = mirror.row_of(Table::Notes, parent);
            let live = stored is Some && !holds(stored->Some_0, "deleted"@, JsonV::Bool(true));
            let kept = kept_children(children);
            &&& replace_refusal(mirror, parent, children) is None <==> live && forall|n: int|
                0 <= n < kept.len() ==> #[trigger] may_be_filed(mirror, parent, kept, n)
            &&& !live ==> replace_refusal(mirror, parent, children) == Some(
                "replace_handwritten_annotations: parent "@ + parent + " not found or deleted"@,
            )
            &&& live && planned(plan, mirror, parent, children) ==> {
                &&& plan.parent_id@ == parent
                &&& children_view(plan.children@) == kept
                &&& match plan.book_id {
                    Some(s) => holds(stored->Some_0, "book_id"@, JsonV::Str(s@)),
                    None => !(stored->Some_0.contains_key("book_id"@)
                        && stored->Some_0["book_id"@] is Str),
                }
                &&& match plan.source {
                    Some(s) => holds(stored->Some_0, "source"@, JsonV::Str(s@)),
                    None => !(stored->Some_0.contains_key("source"@)
                        && stored->Some_0["source"@] is Str),
                }
            }
        }),
{
    law_margins_are_accepted(mirror, parent, kept_children(children));
    if planned(plan, mirror, parent, children) {
        assert(children_view(plan.children@).len() == plan.children@.len());
    }
}

/// Margins are refused for the first that may not be filed, with the first reason that holds of it:
/// a key of the parent's, a key that is used twice, a stored edge that is no margin edge of the
/// parent, a stored note that is not handwritten, a stored note that is a margin of another parent,
/// and last a live edge of another kind.
pub proof fn law_first_fault_is_named(
    mirror: Mirror,
    parent: Seq<char>,
    children: Seq<ChildV>,
    n: int,
)
    requires
        0 <= n < children.len(),
        forall|c: int| 0 <= c < n ==> #[trigger] may_be_filed(mirror, parent, children, c),
        !may_be_filed(mirror, parent, children, n),
    ensures
        ({
            let child = children[n];
            let edge = mirror.row_of(Table::NoteLinks, child.link_id);
            let note = mirror.row_of(Table::Notes, child.id);
            refusal(mirror, parent, children) == Some(
                if child.id == parent || child.link_id == parent {
                    "replace_handwritten_annotations: child/link id collides with the parent id"@
                } else if used_before(children, n, child.id) || used_before(
                    children,
                    n,
                    child.link_id,
                ) || child.id == child.link_id {
                    "replace_handwritten_annotations: duplicate child/link ids in one call"@
                } else if edge is Some && !(holds(
                    edge->Some_0,
                    "from_note_id"@,
                    JsonV::Str(parent),
                ) && (!edge->Some_0.contains_key("relation_type"@) || !(
                edge->Some_0["relation_type"@] is Str) || edge->Some_0["relation_type"@]
                    == JsonV::Str("handwritten_annotation"@))) {
                    "replace_handwritten_annotations: link id collides with a non-margin edge"@
                } else if note is Some && !holds(
                    note->Some_0,
                    "source"@,
                    JsonV::Str("handwritten"@),
                ) {
                    "replace_handwritten_annotations: child id collides with an existing non-margin note"@
                } else if note is Some && !(edge is Some && holds(
                    edge->Some_0,
                    "to_note_id"@,
                    JsonV::Str(child.id),
                )) && !(exists|k: int|
                    0 <= k < mirror.edges().len() && is_margin(
                        #[trigger] mirror.edges()[k],
                        parent,
                    ) && mirror.edges()[k].to == child.id) {
                    "replace_handwritten_annotations: child id collides with another parent's margin"@
                } else {
                    "replace_handwritten_annotations: reused child id is still referenced by another live edge"@
                },
            )
        }),
    decreases children.len(),
{
    let rest = children.drop_last();
    if n < children.len() - 1 {
        assert forall|c: int| 0 <= c <= n implies may_be_filed(mirror, parent, rest, c)
            == #[trigger] may_be_filed(mirror, parent, children, c) by {
            lemma_child_accepted(mirror, parent, children, c);
            lemma_child_accepted(mirror, parent, rest, c);
            assert(rest.take(c) =~= children.take(c));
            assert(rest[c] == children[c]);
        }
        assert forall|c: int| 0 <= c < n implies #[trigger] may_be_filed(
            mirror,
            parent,
            rest,
            c,
        ) by {
            assert(may_be_filed(mirror, parent, children, c));
        }
        assert(!may_be_filed(mirror, parent, rest, n));
        law_first_fault_is_named(mirror, parent, rest, n);
        lemma_uses(children, n, children[n].id);
        lemma_uses(children, n, children[n].link_id);
        lemma_uses(rest, n, children[n].id);
        lemma_uses(rest, n, children[n].link_id);
        assert(rest.take(n) =~= children.take(n));
    } else {
        let child = children[n];
        assert(children.take(n) =~= rest);
        law_margins_are_accepted(mirror, parent, rest);
        assert forall|c: int| 0 <= c < rest.len() implies #[trigger] may_be_filed(
            mirror,
            parent,
            rest,
            c,
        ) by {
            assert(may_be_filed(mirror, parent, children, c));
            lemma_child_accepted(mirror, parent, children, c);
            lemma_child_accepted(mirror, parent, rest, c);
            assert(rest.take(c) =~= children.take(c));
            assert(rest[c] == children[c]);
        }
        lemma_child_accepted(mirror, parent, children, n);
        lemma_uses(children, n, child.id);
        lemma_uses(children, n, child.link_id);
        lemma_own_margin(mirror, parent, child.id);
    }
}

proof fn lemma_uses(children: Seq<ChildV>, n: int, id: Seq<char>)
    requires
        0 <= n <= children.len(),
    ensures
        uses_id(children.take(n), id) <==> used_before(children, n, id),
{
    let before = children.take(n);
    if uses_id(before, id) {
        let c = choose|c: int|
            0 <= c < before.len() && ((#[trigger] before[c]).id == id || before[c].link_id == id);
        assert(children[c] == before[c]);
    }
    if used_before(children, n, id) {
        let c = choose|c: int|
            0 <= c < n && ((#[trigger] children[c]).id == id || children[c].link_id == id);
        assert(before[c] == children[c]);
    }
}

/// Whether a margin before a place uses a key, for its note or for its edge.
pub open spec fn used_before(children: Seq<ChildV>, n: int, id: Seq<char>) -> bool {
    exists|c: int| 0 <= c < n && ((#[trigger] children[c]).id == id || children[c].link_id == id)
}

proof fn lemma_own_margin(mirror: Mirror, parent: Seq<char>, id: Seq<char>)
    ensures
        crate::annotations::has_own_margin(mirror.edges(), parent, id) <==> exists|k: int|
            0 <= k < mirror.edges().len() && is_margin(#[trigger] mirror.edges()[k], parent)
                && mirror.edges()[k].to == id,
{
    let edges = mirror.edges();
    if crate::annotations::has_own_margin(edges, parent, id) {
        let k = choose|k: int|
            0 <= k < edges.len() && crate::mirror::own_margin(#[trigger] edges[k], parent, id);
        assert(is_margin(edges[k], parent));
    }
    if exists|k: int|
        0 <= k < edges.len() && is_margin(#[trigger] edges[k], parent) && edges[k].to == id {
        let k = choose|k: int|
            0 <= k < edges.len() && is_margin(#[trigger] edges[k], parent) && edges[k].to == id;
        assert(crate::mirror::own_margin(edges[k], parent, id));
    }
}

} // verus!
