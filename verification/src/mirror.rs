//! What the sync rules read of the local store: rows by table and key, and the live edges.

use crate::json::{row_text, Fields, RowV};
use crate::tables::Table;
use crate::text::same_text;
use crate::types::NoteLinkRecord;
use vstd::prelude::*;

verus! {

/// One stored row.
#[derive(Debug)]
pub struct MirrorRow {
    pub table: Table,
    pub id: String,
    pub row: Fields,
}

/// The stored rows and live edges that an operation reads. The edges stand in the order in which
/// the store lists them.
#[derive(Debug)]
pub struct Mirror {
    pub rows: Vec<MirrorRow>,
    pub links: Vec<NoteLinkRecord>,
}

/// A live edge by its contents.
pub struct LinkV {
    pub id: Seq<char>,
    pub from: Seq<char>,
    pub to: Seq<char>,
    pub relation: Option<Seq<char>>,
    pub created_at: i64,
    pub updated_at: i64,
}

impl View for NoteLinkRecord {
    type V = LinkV;

    open spec fn view(&self) -> LinkV {
        LinkV {
            id: self.id@,
            from: self.from_note_id@,
            to: self.to_note_id@,
            relation: match self.relation_type {
                Some(s) => Some(s@),
                None => None,
            },
            created_at: self.created_at,
            updated_at: self.updated_at,
        }
    }
}

pub open spec fn links_view(links: Seq<NoteLinkRecord>) -> Seq<LinkV> {
    links.map_values(|l: NoteLinkRecord| l@)
}

/// The first stored row of a table with a key.
pub open spec fn stored(rows: Seq<MirrorRow>, table: Table, id: Seq<char>) -> Option<RowV>
    decreases rows.len(),
{
    if rows.len() == 0 {
        None
    } else if rows[0].table == table && rows[0].id@ == id {
        Some(rows[0].row@)
    } else {
        stored(rows.drop_first(), table, id)
    }
}

impl Mirror {
    /// The stored row of a table with a key.
    pub open spec fn row_of(&self, table: Table, id: Seq<char>) -> Option<RowV> {
        stored(self.rows@, table, id)
    }

    /// The live edges.
    pub open spec fn edges(&self) -> Seq<LinkV> {
        links_view(self.links@)
    }

    /// The stored row of a table with a key.
    pub fn get_row(&self, table: Table, id: &str) -> (row: Option<&Fields>)
        ensures
            row_view(row) == self.row_of(table, id@),
    {
        let mut i: usize = 0;
        assert(self.rows@.skip(0) =~= self.rows@);
        while i < self.rows.len()
            invariant
                i <= self.rows@.len(),
                stored(self.rows@, table, id@) == stored(self.rows@.skip(i as int), table, id@),
            decreases self.rows.len() - i,
        {
            assert(self.rows@.skip(i as int)[0] == self.rows@[i as int]);
            assert(self.rows@.skip(i as int).drop_first() =~= self.rows@.skip(i + 1));
            if self.rows[i].table == table && same_text(self.rows[i].id.as_str(), id) {
                return Some(&self.rows[i].row);
            }
            i = i + 1;
        }
        None
    }
}

pub open spec fn row_view(row: Option<&Fields>) -> Option<RowV> {
    match row {
        Some(fields) => Some(fields@),
        None => None,
    }
}

/// Whether a row is there and not deleted.
pub open spec fn live_row(row: Option<RowV>) -> bool {
    match row {
        Some(r) => !crate::json::row_deleted(r),
        None => false,
    }
}

/// Whether a row is there and not deleted.
pub fn is_live_row(row: Option<&Fields>) -> (yes: bool)
    ensures
        yes == live_row(row_view(row)),
{
    match row {
        Some(fields) => !fields.is_deleted(),
        None => false,
    }
}

/// The text column of a row that may be absent.
pub open spec fn opt_row_text(row: Option<RowV>, name: Seq<char>) -> Option<Seq<char>> {
    match row {
        Some(r) => row_text(r, name),
        None => None,
    }
}

/// The text column of a row that may be absent.
pub fn text_of<'a>(row: Option<&'a Fields>, name: &str) -> (text: Option<&'a String>)
    ensures
        crate::import::opt_text(text) == opt_row_text(row_view(row), name@),
{
    match row {
        Some(fields) => fields.get_text(name),
        None => None,
    }
}

/// Whether an edge is a margin edge; an edge without a relation is one.
pub open spec fn margin_relation(relation: Option<Seq<char>>) -> bool {
    match relation {
        Some(s) => s == "handwritten_annotation"@,
        None => true,
    }
}

/// Whether an edge is a margin edge.
pub fn is_margin_relation(relation: Option<&String>) -> (yes: bool)
    ensures
        yes == margin_relation(crate::import::opt_text(relation)),
{
    match relation {
        Some(s) => same_text(s.as_str(), "handwritten_annotation"),
        None => true,
    }
}

/// Whether an edge has a note at either end.
pub open spec fn touches(link: LinkV, id: Seq<char>) -> bool {
    link.from == id || link.to == id
}

/// Whether an edge is a margin edge from a parent.
pub open spec fn margin_of(link: LinkV, parent: Seq<char>) -> bool {
    link.from == parent && margin_relation(link.relation)
}

/// Whether an edge is a margin edge from a parent to a child.
pub open spec fn own_margin(link: LinkV, parent: Seq<char>, child: Seq<char>) -> bool {
    link.from == parent && link.to == child && margin_relation(link.relation)
}

/// Whether an edge has a note at either end.
pub fn link_touches(link: &NoteLinkRecord, id: &str) -> (yes: bool)
    ensures
        yes == touches(link@, id@),
{
    same_text(link.from_note_id.as_str(), id) || same_text(link.to_note_id.as_str(), id)
}

/// Whether an edge is a margin edge from a parent.
pub fn is_margin_of(link: &NoteLinkRecord, parent: &str) -> (yes: bool)
    ensures
        yes == margin_of(link@, parent@),
{
    same_text(link.from_note_id.as_str(), parent) && is_margin_relation(link.relation_type.as_ref())
}

/// Whether an edge is a margin edge from a parent to a child.
pub fn is_own_margin(link: &NoteLinkRecord, parent: &str, child: &str) -> (yes: bool)
    ensures
        yes == own_margin(link@, parent@, child@),
{
    is_margin_of(link, parent) && same_text(link.to_note_id.as_str(), child)
}

} // verus!
