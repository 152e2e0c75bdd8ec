//! The names of columns and tables, told apart.

use vstd::prelude::*;

verus! {

/// The lengths of the column names, and for those of one length the characters that differ.
pub proof fn lemma_column_names()
    ensures
        "id"@.len() == 2,
        "page"@.len() == 4,
        "tags"@.len() == 4,
        "text"@.len() == 4,
        "isbn"@.len() == 4,
        "name"@.len() == 4,
        "page"@[0] == 'p',
        "page"@[1] == 'a',
        "tags"@[0] == 't',
        "tags"@[1] == 'a',
        "text"@[0] == 't',
        "text"@[1] == 'e',
        "isbn"@[0] == 'i',
        "isbn"@[1] == 's',
        "name"@[0] == 'n',
        "name"@[1] == 'a',
        "title"@.len() == 5,
        "source"@.len() == 6,
        "author"@.len() == 6,
        "source"@[0] == 's',
        "author"@[0] == 'a',
        "book_id"@.len() == 7,
        "chapter"@.len() == 7,
        "deleted"@.len() == 7,
        "note_id"@.len() == 7,
        "book_id"@[0] == 'b',
        "chapter"@[0] == 'c',
        "deleted"@[0] == 'd',
        "note_id"@[0] == 'n',
        "leaf_ids"@.len() == 8,
        "source_id"@.len() == 9,
        "cover_url"@.len() == 9,
        "threshold"@.len() == 9,
        "source_id"@[0] == 's',
        "cover_url"@[0] == 'c',
        "threshold"@[0] == 't',
        "image_path"@.len() == 10,
        "updated_at"@.len() == 10,
        "created_at"@.len() == 10,
        "to_note_id"@.len() == 10,
        "combinator"@.len() == 10,
        "importance"@.len() == 10,
        "image_path"@[2] == 'a',
        "updated_at"@[2] == 'd',
        "created_at"@[2] == 'e',
        "to_note_id"@[2] == '_',
        "combinator"@[2] == 'm',
        "importance"@[2] == 'p',
        "source_meta"@.len() == 11,
        "content_tag"@.len() == 11,
        "description"@.len() == 11,
        "source_meta"@[0] == 's',
        "content_tag"@[0] == 'c',
        "description"@[0] == 'd',
        "cover_source"@.len() == 12,
        "from_note_id"@.len() == 12,
        "source_prior"@.len() == 12,
        "cover_source"@[0] == 'c',
        "from_note_id"@[0] == 'f',
        "source_prior"@[0] == 's',
        "ink_crop_path"@.len() == 13,
        "relation_type"@.len() == 13,
        "collection_id"@.len() == 13,
        "return_visits"@.len() == 13,
        "stitch_spawns"@.len() == 13,
        "ink_crop_path"@[3] == '_',
        "relation_type"@[3] == 'a',
        "collection_id"@[3] == 'l',
        "return_visits"@[3] == 'u',
        "stitch_spawns"@[3] == 't',
        "has_annotation"@.len() == 14,
        "cover_resolved_at"@.len() == 17,
        "exposure_recency_at"@.len() == 19,
        "engagement_recency_at"@.len() == 21,
{
    reveal_strlit("id");
    reveal_strlit("book_id");
    reveal_strlit("page");
    reveal_strlit("tags");
    reveal_strlit("source_id");
    reveal_strlit("source_meta");
    reveal_strlit("chapter");
    reveal_strlit("image_path");
    reveal_strlit("ink_crop_path");
    reveal_strlit("updated_at");
    reveal_strlit("created_at");
    reveal_strlit("deleted");
    reveal_strlit("source");
    reveal_strlit("text");
    reveal_strlit("content_tag");
    reveal_strlit("title");
    reveal_strlit("author");
    reveal_strlit("isbn");
    reveal_strlit("cover_url");
    reveal_strlit("cover_source");
    reveal_strlit("cover_resolved_at");
    reveal_strlit("name");
    reveal_strlit("description");
    reveal_strlit("from_note_id");
    reveal_strlit("to_note_id");
    reveal_strlit("relation_type");
    reveal_strlit("leaf_ids");
    reveal_strlit("combinator");
    reveal_strlit("threshold");
    reveal_strlit("note_id");
    reveal_strlit("collection_id");
    reveal_strlit("source_prior");
    reveal_strlit("return_visits");
    reveal_strlit("has_annotation");
    reveal_strlit("stitch_spawns");
    reveal_strlit("exposure_recency_at");
    reveal_strlit("engagement_recency_at");
    reveal_strlit("importance");
}

/// The lengths of the table names, and for those of one length the characters that differ.
pub proof fn lemma_table_names()
    ensures
        "books"@.len() == 5,
        "notes"@.len() == 5,
        "books"@[0] == 'b',
        "notes"@[0] == 'n',
        "lenses"@.len() == 6,
        "note_links"@.len() == 10,
        "collections"@.len() == 11,
        "custom_ideas"@.len() == 12,
        "note_signals"@.len() == 12,
        "custom_ideas"@[0] == 'c',
        "note_signals"@[0] == 'n',
        "collection_memberships"@.len() == 22,
{
    reveal_strlit("books");
    reveal_strlit("notes");
    reveal_strlit("custom_ideas");
    reveal_strlit("note_links");
    reveal_strlit("lenses");
    reveal_strlit("collections");
    reveal_strlit("collection_memberships");
    reveal_strlit("note_signals");
}

} // verus!
