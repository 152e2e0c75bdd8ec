//! What an archive holds, told from the stored rows and edges.

use crate::columns::{fields_of, mapped_row};
use crate::export::{
    annotated, archive_object, child_text, insert_edge, law_margins_in_edge_order, listed_margins,
    mapped_note, mapped_notes, mapped_rows, margin_edges, margin_texts, rows_of_fields, sealed_text, snapshot_of,
    Snapshot, SnapshotRows,
};
use crate::json::{row_text, JsonV, Number, RowV};
use crate::names::lemma_column_names;
use crate::signal_laws::is_integer;
use crate::staging_laws::{law_exported_row_holds_the_columns, named_in_archive};
use crate::tables::Table;
use crate::text::text_less;
use crate::write_laws::{holds, lists_texts};
use vstd::prelude::*;

verus! {

/// Whether a text is sealed: it begins with `enc:`.
pub open spec fn is_sealed(text: Seq<char>) -> bool {
    text.len() >= 4 && text[0] == 'e' && text[1] == 'n' && text[2] == 'c' && text[3] == ':'
}

proof fn lemma_sealed(text: Seq<char>)
    ensures
        is_sealed(text) <==> crate::export::sealed(text),
{
    reveal_strlit("enc:");
    let mark = "enc:"@;
    assert(mark.len() == 4 && mark[0] == 'e' && mark[1] == 'n' && mark[2] == 'c' && mark[3] == ':');
    if is_sealed(text) {
        assert(text.take(4) =~= mark);
    }
    if crate::export::sealed(text) {
        assert(text.take(4)[0] == mark[0] && text.take(4)[1] == mark[1] && text.take(4)[2]
            == mark[2] && text.take(4)[3] == mark[3]);
    }
}

/// A note is exported with every column under its name in the archive, and its text in the clear: a
/// sealed text as it was opened, any other text as it is stored, and null where none is stored. It
/// fails if and only if its text is sealed and could not be opened.
pub proof fn law_note_is_exported(
    row: RowV,
    opened: Option<Seq<char>>,
    column: Seq<char>,
    name: Seq<char>,
)
    ensures
        mapped_note(row, opened) is None <==> row.contains_key("text"@) && row["text"@] is Str
            && is_sealed(row["text"@]->Str_0) && opened is None,
        mapped_note(row, opened) matches Some(note) ==> {
            &&& if row.contains_key("text"@) && row["text"@] is Str {
                if is_sealed(row["text"@]->Str_0) {
                    holds(note, "text"@, JsonV::Str(opened->Some_0))
                } else {
                    holds(note, "text"@, row["text"@])
                }
            } else {
                holds(note, "text"@, JsonV::Null)
            }
            &&& named_in_archive(Table::Notes, column, name) && name != "text"@ && name
                != "deleted"@ ==> if row.contains_key(column) {
                holds(note, name, row[column])
            } else {
                holds(note, name, JsonV::Null)
            }
            &&& holds(note, "deleted"@, JsonV::Num(Number::PosInt(0)))
            &&& note.contains_key(name) ==> exists|from: Seq<char>| #[trigger]
                named_in_archive(Table::Notes, from, name)
        },
{
    lemma_column_names();
    if row.contains_key("text"@) && row["text"@] is Str {
        lemma_sealed(row["text"@]->Str_0);
    }
    law_exported_row_holds_the_columns(Table::Notes, row, column, name);
    law_exported_row_holds_the_columns(Table::Notes, row, "deleted"@, "deleted"@);
    assert(named_in_archive(Table::Notes, "text"@, "text"@));
    assert(named_in_archive(Table::Notes, "deleted"@, "deleted"@));
}

/// The notes are exported all or none: each in its place, and none if any fails.
pub proof fn law_notes_are_exported(rows: Seq<RowV>, opened: Seq<Option<Seq<char>>>)
    ensures
        mapped_notes(rows, opened) is None <==> exists|i: int|
            #![trigger rows[i]]
            0 <= i < rows.len() && mapped_note(rows[i], opened[i]) is None,
        mapped_notes(rows, opened) matches Some(notes) ==> notes.len() == rows.len() && forall|i: int|
            0 <= i < rows.len() ==> mapped_note(rows[i], opened[i]) == Some(#[trigger] notes[i]),
    decreases rows.len(),
{
    if rows.len() > 0 {
        let before = rows.drop_last();
        let last = rows.len() - 1;
        law_notes_are_exported(before, opened);
        assert(rows[last] == rows.last());
        if mapped_notes(before, opened) is None {
            let i = choose|i: int|
                #![trigger before[i]]
                0 <= i < before.len() && mapped_note(before[i], opened[i]) is None;
            assert(rows[i] == before[i]);
        } else if mapped_notes(rows, opened) is Some {
            assert forall|i: int|
                #![trigger rows[i]]
                0 <= i < rows.len() implies mapped_note(rows[i], opened[i]) is Some by {
                if i < last {
                    assert(before[i] == rows[i]);
                }
            }
        }
    }
}

/// Whether the edge at a place hangs a margin on a note, and by which text: it has the margins'
/// relation, leads from the note, and the last exported note with the key that it leads to and with
/// a text has this one.
pub open spec fn hangs(
    notes: Seq<RowV>,
    links: Seq<RowV>,
    k: int,
    parent: Seq<char>,
    text: Seq<char>,
) -> bool {
    &&& 0 <= k < links.len()
    &&& holds(links[k], "relation_type"@, JsonV::Str("handwritten_annotation"@))
    &&& holds(links[k], "from_note_id"@, JsonV::Str(parent))
    &&& links[k].contains_key("to_note_id"@) && links[k]["to_note_id"@] is Str
    &&& is_text_of(notes, links[k]["to_note_id"@]->Str_0, text)
}

/// Whether a text is that of the last note with a key that has one.
pub open spec fn is_text_of(notes: Seq<RowV>, id: Seq<char>, text: Seq<char>) -> bool {
    exists|n: int|
        0 <= n < notes.len() && holds(#[trigger] notes[n], "id"@, JsonV::Str(id)) && holds(
            notes[n],
            "text"@,
            JsonV::Str(text),
        ) && forall|m: int|
            n < m < notes.len() ==> !(holds(#[trigger] notes[m], "id"@, JsonV::Str(id))
                && notes[m].contains_key("text"@) && notes[m]["text"@] is Str)
}

proof fn lemma_child_text(notes: Seq<RowV>, id: Seq<char>, text: Seq<char>)
    ensures
        child_text(notes, id) == Some(text) <==> is_text_of(notes, id, text),
    decreases notes.len(),
{
    if notes.len() > 0 {
        let before = notes.drop_last();
        let last = notes.len() - 1;
        assert(notes[last] == notes.last());
        lemma_child_text(before, id, text);
        let found = holds(notes[last], "id"@, JsonV::Str(id)) && notes[last].contains_key("text"@)
            && notes[last]["text"@] is Str;
        assert forall|m: int| 0 <= m < last implies #[trigger] before[m] == notes[m] by {}
        if found {
            if child_text(notes, id) == Some(text) {
                assert(holds(notes[last], "id"@, JsonV::Str(id)));
            }
            if is_text_of(notes, id, text) {
                let n = choose|n: int|
                    0 <= n < notes.len() && holds(#[trigger] notes[n], "id"@, JsonV::Str(id))
                        && holds(notes[n], "text"@, JsonV::Str(text)) && forall|m: int|
                        n < m < notes.len() ==> !(holds(#[trigger] notes[m], "id"@, JsonV::Str(id))
                            && notes[m].contains_key("text"@) && notes[m]["text"@] is Str);
                if n < last {
                    assert(holds(notes[last], "id"@, JsonV::Str(id)));
                }
            }
        } else {
            if is_text_of(before, id, text) {
                let n = choose|n: int|
                    0 <= n < before.len() && holds(#[trigger] before[n], "id"@, JsonV::Str(id))
                        && holds(before[n], "text"@, JsonV::Str(text)) && forall|m: int|
                        n < m < before.len() ==> !(holds(
                            #[trigger] before[m],
                            "id"@,
                            JsonV::Str(id),
                        ) && before[m].contains_key("text"@) && before[m]["text"@] is Str);
                assert(notes[n] == before[n]);
                assert forall|m: int| n < m < notes.len() implies !(holds(
                    #[trigger] notes[m],
                    "id"@,
                    JsonV::Str(id),
                ) && notes[m].contains_key("text"@) && notes[m]["text"@] is Str) by {
                    if m < last {
                        assert(before[m] == notes[m]);
                    }
                }
            }
            if is_text_of(notes, id, text) {
                let n = choose|n: int|
                    0 <= n < notes.len() && holds(#[trigger] notes[n], "id"@, JsonV::Str(id))
                        && holds(notes[n], "text"@, JsonV::Str(text)) && forall|m: int|
                        n < m < notes.len() ==> !(holds(#[trigger] notes[m], "id"@, JsonV::Str(id))
                            && notes[m].contains_key("text"@) && notes[m]["text"@] is Str);
                assert(n < last);
                assert(before[n] == notes[n]);
                assert forall|m: int| n < m < before.len() implies !(holds(
                    #[trigger] before[m],
                    "id"@,
                    JsonV::Str(id),
                ) && before[m].contains_key("text"@) && before[m]["text"@] is Str) by {
                    assert(before[m] == notes[m]);
                }
            }
        }
    }
}

/// Whether one edge is listed ahead of another: it is older, or as old and its key comes first in
/// byte order. A missing time counts as zero and a missing key as the empty one.
pub open spec fn is_ahead(a: RowV, b: RowV) -> bool {
    let key = |e: RowV|
        if e.contains_key("id"@) && e["id"@] is Str {
            e["id"@]->Str_0
        } else {
            Seq::<char>::empty()
        };
    let time = |e: RowV|
        if exists|n: i64| #[trigger] is_integer(e, "created_at"@, n as int) {
            choose|n: i64| #[trigger] is_integer(e, "created_at"@, n as int)
        } else {
            0
        };
    time(a) < time(b) || (time(a) == time(b) && text_less(key(a), key(b)))
}

proof fn lemma_is_ahead(a: RowV, b: RowV)
    ensures
        is_ahead(a, b) <==> crate::export::edge_before(a, b),
{
    lemma_edge_time(a);
    lemma_edge_time(b);
}

proof fn lemma_edge_time(e: RowV)
    ensures
        crate::export::edge_time(e) == if exists|n: i64| #[trigger]
            is_integer(e, "created_at"@, n as int) {
            choose|n: i64| #[trigger] is_integer(e, "created_at"@, n as int)
        } else {
            0
        },
{
    if let Some(n) = crate::json::row_i64(e, "created_at"@) {
        assert(is_integer(e, "created_at"@, n as int));
        let m = choose|n: i64| #[trigger] is_integer(e, "created_at"@, n as int);
        assert(is_integer(e, "created_at"@, m as int));
        assert(n == m);
    } else {
        assert forall|n: i64| !#[trigger] is_integer(e, "created_at"@, n as int) by {}
    }
}

/// Whether places list the margin edges, each once, none ahead of one in front of it.
pub open spec fn lists_edges(links: Seq<RowV>, order: Seq<int>) -> bool {
    &&& order.no_duplicates()
    &&& forall|k: int| #[trigger]
        order.contains(k) <==> 0 <= k < links.len() && holds(
            links[k],
            "relation_type"@,
            JsonV::Str("handwritten_annotation"@),
        )
    &&& forall|i: int, j: int|
        0 <= i < j < order.len() ==> !is_ahead(links[#[trigger] order[j]], links[#[trigger] order[i]])
}

spec fn taken(links: Seq<RowV>, order: Seq<int>) -> Seq<RowV> {
    order.map_values(|k: int| links[k])
}

proof fn lemma_insert_place(links: Seq<RowV>, order: Seq<int>, k: int) -> (out: Seq<int>)
    requires
        0 <= k < links.len(),
        !order.contains(k),
        order.no_duplicates(),
    ensures
        insert_edge(taken(links, order), links[k]) == taken(links, out),
        out.no_duplicates(),
        forall|j: int| #[trigger] out.contains(j) <==> order.contains(j) || j == k,
    decreases order.len(),
{
    let sorted = taken(links, order);
    if sorted.len() > 0 && crate::export::edge_before(links[k], sorted.last()) {
        let rest = order.drop_last();
        let last = order.last();
        assert(sorted.drop_last() =~= taken(links, rest));
        assert(order[order.len() - 1] == last);
        assert forall|j: int| rest.contains(j) implies #[trigger] order.contains(j) && j != last by {
            let i = choose|i: int| 0 <= i < rest.len() && rest[i] == j;
            assert(order[i] == j);
        }
        assert(!rest.contains(k));
        assert(rest.no_duplicates()) by {
            assert forall|i: int, j: int|
                0 <= i < rest.len() && 0 <= j < rest.len() && i != j implies rest[i] != rest[j] by {
                assert(rest[i] == order[i] && rest[j] == order[j]);
            }
        }
        let inner = lemma_insert_place(links, rest, k);
        let out = inner.push(last);
        assert(taken(links, out) =~= taken(links, inner).push(links[last]));
        assert forall|j: int| #[trigger] out.contains(j) <==> order.contains(j) || j == k by {
            if out.contains(j) {
                let i = choose|i: int| 0 <= i < out.len() && out[i] == j;
                if i < inner.len() {
                    assert(inner.contains(inner[i]));
                    assert(inner.contains(j));
                    if rest.contains(j) {
                        assert(order.contains(j));
                    }
                } else {
                    assert(order.contains(last));
                }
            }
            if order.contains(j) {
                let i = choose|i: int| 0 <= i < order.len() && order[i] == j;
                if i < rest.len() {
                    assert(rest[i] == j);
                    assert(rest.contains(j));
                    assert(inner.contains(j));
                    let m = choose|m: int| 0 <= m < inner.len() && inner[m] == j;
                    assert(out[m] == j);
                } else {
                    assert(out[inner.len() as int] == j);
                }
            }
            if j == k {
                assert(inner.contains(k));
                let m = choose|m: int| 0 <= m < inner.len() && inner[m] == k;
                assert(out[m] == k);
            }
        }
        assert(out.no_duplicates()) by {
            assert(!inner.contains(last)) by {
                if inner.contains(last) {
                    assert(rest.contains(last) || last == k);
                    assert(order.contains(last));
                }
            }
        }
        out
    } else {
        let out = order.push(k);
        assert(taken(links, out) =~= sorted.push(links[k]));
        assert forall|j: int| #[trigger] out.contains(j) <==> order.contains(j) || j == k by {
            if out.contains(j) {
                let i = choose|i: int| 0 <= i < out.len() && out[i] == j;
                if i < order.len() {
                    assert(order[i] == j);
                }
            }
            if order.contains(j) {
                let i = choose|i: int| 0 <= i < order.len() && order[i] == j;
                assert(out[i] == j);
            }
            if j == k {
                assert(out[order.len() as int] == k);
            }
        }
        out
    }
}

proof fn lemma_edges_listed(links: Seq<RowV>, upto: int) -> (order: Seq<int>)
    requires
        0 <= upto <= links.len(),
    ensures
        margin_edges(links.take(upto)) == taken(links, order),
        order.no_duplicates(),
        forall|k: int| #[trigger]
            order.contains(k) <==> 0 <= k < upto && holds(
                links[k],
                "relation_type"@,
                JsonV::Str("handwritten_annotation"@),
            ),
    decreases upto,
{
    if upto == 0 {
        let order = Seq::<int>::empty();
        assert(taken(links, order) =~= Seq::empty());
        order
    } else {
        let k = upto - 1;
        let held = lemma_edges_listed(links, k);
        assert(links.take(upto).drop_last() =~= links.take(k));
        assert(links.take(upto).last() == links[k]);
        if holds(links[k], "relation_type"@, JsonV::Str("handwritten_annotation"@)) {
            assert(!held.contains(k));
            let order = lemma_insert_place(links, held, k);
            assert forall|j: int| #[trigger]
                order.contains(j) <==> 0 <= j < upto && holds(
                    links[j],
                    "relation_type"@,
                    JsonV::Str("handwritten_annotation"@),
                ) by {
                assert(order.contains(j) <==> held.contains(j) || j == k);
            }
            order
        } else {
            held
        }
    }
}

/// The margin edges are listed by their times and then by their keys, each once, and no other edge
/// is.
pub proof fn law_margin_edges_are_listed(links: Seq<RowV>)
    ensures
        exists|order: Seq<int>| #[trigger]
            lists_edges(links, order) && margin_edges(links).len() == order.len() && forall|i: int|
                0 <= i < order.len() ==> #[trigger] margin_edges(links)[i] == links[order[i]],
{
    let order = lemma_edges_listed(links, links.len() as int);
    assert(links.take(links.len() as int) =~= links);
    law_margins_in_edge_order(links);
    let edges = margin_edges(links);
    assert forall|i: int, j: int| 0 <= i < j < order.len() implies !is_ahead(
        links[#[trigger] order[j]],
        links[#[trigger] order[i]],
    ) by {
        assert(edges[i] == links[order[i]] && edges[j] == links[order[j]]);
        lemma_is_ahead(links[order[j]], links[order[i]]);
    }
    assert(lists_edges(links, order));
}

/// Whether texts are those of the margins that hang on a note, one for each edge at these places, in
/// order.
pub open spec fn lists_margins(
    notes: Seq<RowV>,
    links: Seq<RowV>,
    parent: Seq<char>,
    places: Seq<int>,
    texts: Seq<Seq<char>>,
) -> bool {
    &&& places.no_duplicates()
    &&& places.len() == texts.len()
    &&& forall|i: int|
        0 <= i < texts.len() ==> hangs(notes, links, places[i], parent, #[trigger] texts[i])
    &&& forall|k: int, text: Seq<char>| #[trigger]
        hangs(notes, links, k, parent, text) ==> places.contains(k)
    &&& forall|i: int, j: int|
        0 <= i < j < places.len() ==> !is_ahead(
            links[#[trigger] places[j]],
            links[#[trigger] places[i]],
        )
}

proof fn lemma_margin_texts(
    notes: Seq<RowV>,
    links: Seq<RowV>,
    order: Seq<int>,
    parent: Seq<char>,
    upto: int,
) -> (kept: Seq<int>)
    requires
        lists_edges(links, order),
        0 <= upto <= order.len(),
    ensures
        ({
            let texts = margin_texts(taken(links, order).take(upto), notes, parent);
            &&& kept.len() == texts.len()
            &&& forall|i: int, j: int| 0 <= i < j < kept.len() ==> kept[i] < kept[j]
            &&& forall|i: int|
                #![trigger kept[i]]
                0 <= i < kept.len() ==> 0 <= kept[i] < upto && hangs(
                    notes,
                    links,
                    order[kept[i]],
                    parent,
                    texts[i],
                )
            &&& forall|e: int, text: Seq<char>|
                0 <= e < upto && #[trigger] hangs(notes, links, order[e], parent, text)
                    ==> kept.contains(e)
        }),
    decreases upto,
{
    let edges = taken(links, order);
    if upto == 0 {
        Seq::empty()
    } else {
        let e = upto - 1;
        let held = lemma_margin_texts(notes, links, order, parent, e);
        let before = margin_texts(edges.take(e), notes, parent);
        let texts = margin_texts(edges.take(upto), notes, parent);
        assert(edges.take(upto).drop_last() =~= edges.take(e));
        assert(edges.take(upto).last() == links[order[e]]);
        assert(order.contains(order[e]));
        let edge = links[order[e]];
        let found = crate::export::margin_text(edge, notes, parent);
        assert forall|text: Seq<char>| #[trigger]
            hangs(notes, links, order[e], parent, text) <==> found == Some(text) by {
            if edge.contains_key("to_note_id"@) && edge["to_note_id"@] is Str {
                lemma_child_text(notes, edge["to_note_id"@]->Str_0, text);
            }
        }
        match found {
            Some(text) => {
                let kept = held.push(e);
                assert(texts =~= before.push(text));
                assert forall|i: int|
                    #![trigger kept[i]]
                    0 <= i < kept.len() implies 0 <= kept[i] < upto && hangs(
                    notes,
                    links,
                    order[kept[i]],
                    parent,
                    texts[i],
                ) by {
                    if i < held.len() {
                        assert(kept[i] == held[i]);
                        assert(texts[i] == before[i]);
                    }
                }
                assert forall|x: int, t: Seq<char>|
                    0 <= x < upto && #[trigger] hangs(notes, links, order[x], parent, t) implies kept.contains(
                x) by {
                    if x < e {
                        assert(held.contains(x));
                        let i = choose|i: int| 0 <= i < held.len() && held[i] == x;
                        assert(kept[i] == x);
                    } else {
                        assert(kept[held.len() as int] == x);
                    }
                }
                assert forall|i: int, j: int| 0 <= i < j < kept.len() implies kept[i] < kept[j] by {
                    assert(kept[i] == held[i]);
                    if j < held.len() {
                        assert(kept[j] == held[j]);
                    } else {
                        assert(held[i] < e);
                    }
                }
                kept
            },
            None => held,
        }
    }
}

/// A note lists its margins: the first exported note with a key has, where margin edges lead from it
/// to notes with a text, the list of those texts, one for each such edge, by the edges' times and
/// then their keys. A note without such edges, a later note of the same key and one without a key
/// list none.
pub proof fn law_margins_are_listed(notes: Seq<RowV>, links: Seq<RowV>, at: int)
    requires
        0 <= at < notes.len(),
    ensures
        ({
            let out = annotated(notes, links)[at];
            let first = notes[at].contains_key("id"@) && notes[at]["id"@] is Str && forall|j: int|
                0 <= j < at ==> !holds(#[trigger] notes[j], "id"@, notes[at]["id"@]);
            let parent = notes[at]["id"@]->Str_0;
            &&& annotated(notes, links).len() == notes.len()
            &&& first && (exists|k: int, text: Seq<char>| #[trigger]
                hangs(notes, links, k, parent, text)) ==> {
                &&& out.contains_key("user_metadata"@) && out["user_metadata"@] is Obj
                &&& out["user_metadata"@]->Obj_0.dom() =~= Set::empty().insert("user_annotation"@)
                &&& exists|places: Seq<int>, texts: Seq<Seq<char>>| #[trigger]
                    lists_margins(notes, links, parent, places, texts) && lists_texts(
                        out["user_metadata"@]->Obj_0["user_annotation"@],
                        texts,
                    )
            }
            &&& !first || (forall|k: int, text: Seq<char>|
                !#[trigger] hangs(notes, links, k, parent, text)) ==> out == notes[at]
        }),
{
    let parent = notes[at]["id"@]->Str_0;
    let edges = margin_edges(links);
    law_margin_edges_are_listed(links);
    let order = choose|order: Seq<int>| #[trigger]
        lists_edges(links, order) && margin_edges(links).len() == order.len() && forall|i: int|
            0 <= i < order.len() ==> #[trigger] margin_edges(links)[i] == links[order[i]];
    assert(edges =~= taken(links, order));
    assert(edges.take(edges.len() as int) =~= edges);
    let kept = lemma_margin_texts(notes, links, order, parent, order.len() as int);
    let texts = margin_texts(edges, notes, parent);
    let places = kept.map_values(|e: int| order[e]);
    assert forall|i: int| 0 <= i < texts.len() implies hangs(
        notes,
        links,
        places[i],
        parent,
        #[trigger] texts[i],
    ) by {
        assert(0 <= kept[i] < order.len());
    }
    assert forall|k: int, text: Seq<char>| #[trigger]
        hangs(notes, links, k, parent, text) implies places.contains(k) by {
        assert(order.contains(k)) by {
            assert(holds(
                links[k],
                "relation_type"@,
                JsonV::Str("handwritten_annotation"@),
            ));
        }
        let e = choose|e: int| 0 <= e < order.len() && order[e] == k;
        assert(hangs(notes, links, order[e], parent, text));
        assert(kept.contains(e));
        let i = choose|i: int| 0 <= i < kept.len() && kept[i] == e;
        assert(places[i] == k);
    }
    assert forall|i: int, j: int| 0 <= i < j < places.len() implies !is_ahead(
        links[#[trigger] places[j]],
        links[#[trigger] places[i]],
    ) && places[i] != places[j] by {
        assert(kept[i] < kept[j]);
        assert(0 <= kept[i] && kept[j] < order.len());
        assert(order[kept[i]] != order[kept[j]]);
        assert(!is_ahead(links[order[kept[j]]], links[order[kept[i]]]));
    }
    assert(places.no_duplicates()) by {
        assert forall|i: int, j: int|
            0 <= i < places.len() && 0 <= j < places.len() && i != j implies places[i]
            != places[j] by {
            if i < j {
                assert(!is_ahead(links[places[j]], links[places[i]]));
            } else {
                assert(!is_ahead(links[places[i]], links[places[j]]));
            }
        }
    }
    assert(lists_margins(notes, links, parent, places, texts));
    if exists|k: int, text: Seq<char>| #[trigger] hangs(notes, links, k, parent, text) {
        let (k, text) = choose|k: int, text: Seq<char>| #[trigger]
            hangs(notes, links, k, parent, text);
        assert(places.contains(k));
        assert(texts.len() > 0);
    } else if texts.len() > 0 {
        assert(hangs(notes, links, places[0], parent, texts[0]));
    }
    let listed = listed_margins(notes, edges, at);
    if notes[at].contains_key("id"@) && notes[at]["id"@] is Str {
        assert forall|j: int| 0 <= j < at implies (holds(
            #[trigger] notes[j],
            "id"@,
            notes[at]["id"@],
        ) <==> row_text(notes[j], "id"@) == Some(parent)) by {}
    }
}

/// A snapshot has every stored row of every table, in order, each with the columns of its table.
pub proof fn law_snapshot_has_every_row(
    snapshot: Snapshot,
    rows: SnapshotRows,
    notes: Seq<RowV>,
    now: i64,
)
    requires
        snapshot_of(snapshot, rows, notes, now),
    ensures
        snapshot.books@.len() == rows.books@.len(),
        snapshot.notes@.len() == notes.len(),
        snapshot.custom_ideas@.len() == rows.custom_ideas@.len(),
        snapshot.note_links@.len() == rows.note_links@.len(),
        snapshot.lenses@.len() == rows.lenses@.len(),
        snapshot.collections@.len() == rows.collections@.len(),
        snapshot.collection_memberships@.len() == rows.collection_memberships@.len(),
        snapshot.note_signals@.len() == rows.note_signals@.len(),
        forall|i: int|
            0 <= i < rows.books@.len() ==> (#[trigger] snapshot.books@[i])@ == mapped_row(
                rows.books@[i]@,
                fields_of(Table::Books),
            ),
        forall|i: int|
            0 <= i < rows.custom_ideas@.len() ==> (#[trigger] snapshot.custom_ideas@[i])@
                == mapped_row(rows.custom_ideas@[i]@, fields_of(Table::CustomIdeas)),
        forall|i: int|
            0 <= i < rows.note_links@.len() ==> (#[trigger] snapshot.note_links@[i])@ == mapped_row(
                rows.note_links@[i]@,
                fields_of(Table::NoteLinks),
            ),
        forall|i: int|
            0 <= i < rows.lenses@.len() ==> (#[trigger] snapshot.lenses@[i])@ == mapped_row(
                rows.lenses@[i]@,
                fields_of(Table::Lenses),
            ),
        forall|i: int|
            0 <= i < rows.collections@.len() ==> (#[trigger] snapshot.collections@[i])@
                == mapped_row(rows.collections@[i]@, fields_of(Table::Collections)),
        forall|i: int|
            0 <= i < rows.collection_memberships@.len() ==> (
            #[trigger] snapshot.collection_memberships@[i])@ == mapped_row(
                rows.collection_memberships@[i]@,
                fields_of(Table::CollectionMemberships),
            ),
        forall|i: int|
            0 <= i < rows.note_signals@.len() ==> (#[trigger] snapshot.note_signals@[i])@
                == mapped_row(rows.note_signals@[i]@, fields_of(Table::NoteSignals)),
        forall|i: int|
            0 <= i < notes.len() ==> (#[trigger] snapshot.notes@[i])@ == annotated(
                notes,
                rows_of_fields(rows.note_links@),
            )[i],
{
    lemma_same_rows(snapshot.books@, rows.books@, Table::Books);
    lemma_same_rows(snapshot.custom_ideas@, rows.custom_ideas@, Table::CustomIdeas);
    lemma_same_rows(snapshot.note_links@, rows.note_links@, Table::NoteLinks);
    lemma_same_rows(snapshot.lenses@, rows.lenses@, Table::Lenses);
    lemma_same_rows(snapshot.collections@, rows.collections@, Table::Collections);
    lemma_same_rows(
        snapshot.collection_memberships@,
        rows.collection_memberships@,
        Table::CollectionMemberships,
    );
    lemma_same_rows(snapshot.note_signals@, rows.note_signals@, Table::NoteSignals);
    let all = rows_of_fields(snapshot.notes@);
    assert(all.len() == snapshot.notes@.len());
    assert forall|i: int| 0 <= i < notes.len() implies (#[trigger] snapshot.notes@[i])@
        == annotated(notes, rows_of_fields(rows.note_links@))[i] by {
        assert(all[i] == snapshot.notes@[i]@);
    }
}

proof fn lemma_same_rows(
    out: Seq<crate::json::Fields>,
    rows: Seq<crate::json::Fields>,
    table: Table,
)
    requires
        rows_of_fields(out) == mapped_rows(rows_of_fields(rows), table),
    ensures
        out.len() == rows.len(),
        forall|i: int|
            0 <= i < rows.len() ==> (#[trigger] out[i])@ == mapped_row(
                rows[i]@,
                fields_of(table),
            ),
{
    let mapped = rows_of_fields(out);
    assert(mapped.len() == out.len());
    assert(mapped_rows(rows_of_fields(rows), table).len() == rows.len());
    assert forall|i: int| 0 <= i < rows.len() implies (#[trigger] out[i])@ == mapped_row(
        rows[i]@,
        fields_of(table),
    ) by {
        assert(mapped[i] == out[i]@);
    }
}

/// Whether a value is the list of these rows, each as an object, in order.
pub open spec fn lists_rows(value: JsonV, rows: Seq<crate::json::Fields>) -> bool {
    match value {
        JsonV::Arr(items) => items.len() == rows.len() && forall|i: int|
            0 <= i < rows.len() ==> #[trigger] items[i] == JsonV::Obj(rows[i]@),
        _ => false,
    }
}

/// An archive is marked as one, names its version and its time, and lists every row of every table
/// under the table's name in an archive. It holds nothing else.
pub proof fn law_archive_lists_every_row(snapshot: Snapshot)
    ensures
        ({
            let archive = archive_object(snapshot);
            &&& holds(archive, "_syntopicon"@, JsonV::Bool(true))
            &&& holds(archive, "schemaVersion"@, JsonV::Num(Number::PosInt(19)))
            &&& holds(archive, "exportedAt"@, JsonV::Str(snapshot.exported_at@))
            &&& archive.contains_key("books"@) && lists_rows(archive["books"@], snapshot.books@)
            &&& archive.contains_key("notes"@) && lists_rows(archive["notes"@], snapshot.notes@)
            &&& archive.contains_key("customIdeas"@) && lists_rows(
                archive["customIdeas"@],
                snapshot.custom_ideas@,
            )
            &&& archive.contains_key("noteLinks"@) && lists_rows(
                archive["noteLinks"@],
                snapshot.note_links@,
            )
            &&& archive.contains_key("lenses"@) && lists_rows(archive["lenses"@], snapshot.lenses@)
            &&& archive.contains_key("collections"@) && lists_rows(
                archive["collections"@],
                snapshot.collections@,
            )
            &&& archive.contains_key("collectionMemberships"@) && lists_rows(
                archive["collectionMemberships"@],
                snapshot.collection_memberships@,
            )
            &&& archive.contains_key("noteSignals"@) && lists_rows(
                archive["noteSignals"@],
                snapshot.note_signals@,
            )
            &&& archive.dom().len() == 11
        }),
{
    reveal_strlit("_syntopicon");
    reveal_strlit("schemaVersion");
    reveal_strlit("exportedAt");
    reveal_strlit("books");
    reveal_strlit("notes");
    reveal_strlit("customIdeas");
    reveal_strlit("noteLinks");
    reveal_strlit("lenses");
    reveal_strlit("collections");
    reveal_strlit("collectionMemberships");
    reveal_strlit("noteSignals");
    assert("_syntopicon"@.len() == 11 && "schemaVersion"@.len() == 13 && "exportedAt"@.len() == 10
        && "books"@.len() == 5 && "notes"@.len() == 5 && "customIdeas"@.len() == 11
        && "noteLinks"@.len() == 9 && "lenses"@.len() == 6 && "collections"@.len() == 11
        && "collectionMemberships"@.len() == 21 && "noteSignals"@.len() == 11);
    assert("books"@[0] == 'b' && "notes"@[0] == 'n');
    assert("_syntopicon"@[1] == 's' && "customIdeas"@[1] == 'u' && "collections"@[1] == 'o'
        && "noteSignals"@[1] == 'o' && "collections"@[0] == 'c' && "noteSignals"@[0] == 'n');
    let archive = archive_object(snapshot);
    assert(archive.dom() =~= Set::empty().insert("_syntopicon"@).insert("schemaVersion"@).insert(
        "exportedAt"@,
    ).insert("books"@).insert("notes"@).insert("customIdeas"@).insert("noteLinks"@).insert(
        "lenses"@,
    ).insert("collections"@).insert("collectionMemberships"@).insert("noteSignals"@));
}

/// The texts that have to be opened before an export are the sealed ones.
pub proof fn law_sealed_texts_are_opened(row: RowV)
    ensures
        match sealed_text(row) {
            Some(text) => holds(row, "text"@, JsonV::Str(text)) && is_sealed(text),
            None => !(row.contains_key("text"@) && row["text"@] is Str && is_sealed(
                row["text"@]->Str_0,
            )),
        },
{
    if row.contains_key("text"@) && row["text"@] is Str {
        lemma_sealed(row["text"@]->Str_0);
    }
}

} // verus!
