//! The eight synced tables.

use crate::text::same_text;
use vstd::prelude::*;

verus! {

/// A synced table.
#[derive(Debug, Clone, Copy, PartialEq, Eq, Structural)]
pub enum Table {
    Books,
    Notes,
    CustomIdeas,
    NoteLinks,
    Lenses,
    Collections,
    CollectionMemberships,
    NoteSignals,
}

/// All synced tables, in the order in which they are synced.
pub const TABLES: [Table; 8] = [
    Table::Books,
    Table::Notes,
    Table::CustomIdeas,
    Table::NoteLinks,
    Table::Lenses,
    Table::Collections,
    Table::CollectionMemberships,
    Table::NoteSignals,
];

/// The table's name.
pub open spec fn table_name(table: Table) -> Seq<char> {
    match table {
        Table::Books => "books"@,
        Table::Notes => "notes"@,
        Table::CustomIdeas => "custom_ideas"@,
        Table::NoteLinks => "note_links"@,
        Table::Lenses => "lenses"@,
        Table::Collections => "collections"@,
        Table::CollectionMemberships => "collection_memberships"@,
        Table::NoteSignals => "note_signals"@,
    }
}

/// The table's name in an archive.
pub open spec fn archive_name(table: Table) -> Seq<char> {
    match table {
        Table::Books => "books"@,
        Table::Notes => "notes"@,
        Table::CustomIdeas => "customIdeas"@,
        Table::NoteLinks => "noteLinks"@,
        Table::Lenses => "lenses"@,
        Table::Collections => "collections"@,
        Table::CollectionMemberships => "collectionMemberships"@,
        Table::NoteSignals => "noteSignals"@,
    }
}

/// The column that holds the table's key.
pub open spec fn key_column(table: Table) -> Seq<char> {
    match table {
        Table::NoteSignals => "note_id"@,
        _ => "id"@,
    }
}

/// The archive field that holds the table's key.
pub open spec fn archive_key(table: Table) -> Seq<char> {
    match table {
        Table::NoteSignals => "noteId"@,
        _ => "id"@,
    }
}

proof fn lemma_every_table(table: Table)
    ensures
        exists|j: int| 0 <= j < 8 && #[trigger] TABLES@[j] == table,
{
    let j: int = match table {
        Table::Books => 0,
        Table::Notes => 1,
        Table::CustomIdeas => 2,
        Table::NoteLinks => 3,
        Table::Lenses => 4,
        Table::Collections => 5,
        Table::CollectionMemberships => 6,
        Table::NoteSignals => 7,
    };
    assert(TABLES@[j] == table);
}

/// Whether a name is that of a synced table.
pub open spec fn known_table(name: Seq<char>) -> bool {
    exists|table: Table| #[trigger] table_name(table) == name
}

impl Table {
    /// The table with a name.
    pub fn named(name: &str) -> (table: Option<Table>)
        ensures
            match table {
                Some(t) => table_name(t) == name@,
                None => !known_table(name@),
            },
    {
        let mut i: usize = 0;
        while i < 8
            invariant
                i <= 8,
                forall|j: int| 0 <= j < i ==> table_name(#[trigger] TABLES@[j]) != name@,
            decreases 8 - i,
        {
            let table = TABLES[i];
            if same_text(table.name(), name) {
                return Some(table);
            }
            i = i + 1;
        }
        proof {
            assert forall|table: Table| #[trigger] table_name(table) != name@ by {
                lemma_every_table(table);
            }
        }
        None
    }

    /// The table's name.
    pub fn name(&self) -> (name: &'static str)
        ensures
            name@ == table_name(*self),
    {
        match self {
            Table::Books => "books",
            Table::Notes => "notes",
            Table::CustomIdeas => "custom_ideas",
            Table::NoteLinks => "note_links",
            Table::Lenses => "lenses",
            Table::Collections => "collections",
            Table::CollectionMemberships => "collection_memberships",
            Table::NoteSignals => "note_signals",
        }
    }

    /// The table's name in an archive.
    pub fn archive_name(&self) -> (name: &'static str)
        ensures
            name@ == archive_name(*self),
    {
        match self {
            Table::Books => "books",
            Table::Notes => "notes",
            Table::CustomIdeas => "customIdeas",
            Table::NoteLinks => "noteLinks",
            Table::Lenses => "lenses",
            Table::Collections => "collections",
            Table::CollectionMemberships => "collectionMemberships",
            Table::NoteSignals => "noteSignals",
        }
    }

    /// The column that holds the table's key.
    pub fn key_column(&self) -> (name: &'static str)
        ensures
            name@ == key_column(*self),
    {
        match self {
            Table::NoteSignals => "note_id",
            _ => "id",
        }
    }

    /// The archive field that holds the table's key.
    pub fn archive_key(&self) -> (name: &'static str)
        ensures
            name@ == archive_key(*self),
    {
        match self {
            Table::NoteSignals => "noteId",
            _ => "id",
        }
    }
}

} // verus!
