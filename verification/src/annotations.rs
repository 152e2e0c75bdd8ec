//! Margin notes: replacing a note's handwritten margins in one batch, and what deleting a note
//! does to the margin edges that point at it.

use crate::import::opt_text;
use crate::json::{holds_text, int_json, row_text, Fields, Json, JsonV, RowV};
use crate::mirror::{
    is_live_row, is_margin_of, is_margin_relation, is_own_margin, link_touches, links_view, live_row,
    margin_of, margin_relation, opt_row_text, own_margin, text_of, touches, LinkV, Mirror,
};
use crate::signals::{
    draft_of, draft_signal_write, int_or, later_stamp, read_int, scored, signal_row,
    stage_signal_write, stamp_after, DraftV, Score, SignalChange, SignalDraft, SignalState,
};
use crate::tables::Table;
use crate::text::{joined, same_text, trim_text, trimmed};
use crate::types::{store_error, writes_view, MarginChild, NoteLinkRecord, SyncError, Write, WriteV};
use vstd::prelude::*;
use vstd::string::StringExecFns;

verus! {

/// A margin by its contents.
pub struct ChildV {
    pub id: Seq<char>,
    pub link_id: Seq<char>,
    pub text: Seq<char>,
    pub ink_crop_path: Option<Seq<char>>,
}

impl View for MarginChild {
    type V = ChildV;

    open spec fn view(&self) -> ChildV {
        ChildV {
            id: self.id@,
            link_id: self.link_id@,
            text: self.text@,
            ink_crop_path: match self.ink_crop_path {
                Some(s) => Some(s@),
                None => None,
            },
        }
    }
}

pub open spec fn children_view(children: Seq<MarginChild>) -> Seq<ChildV> {
    children.map_values(|c: MarginChild| c@)
}

/// A note's text after sealing, and the tag of its plaintext.
#[derive(Debug)]
pub struct SealedText {
    pub ciphertext: String,
    pub content_tag: String,
}

/// A checked replacement: the parent's book and source, and the margins to file.
#[derive(Debug)]
pub struct ReplacePlan {
    pub parent_id: String,
    pub book_id: Option<String>,
    pub source: Option<String>,
    pub children: Vec<MarginChild>,
}

/// The margins that are filed: trimmed, without blank ones.
pub open spec fn kept_children(children: Seq<ChildV>) -> Seq<ChildV>
    decreases children.len(),
{
    if children.len() == 0 {
        Seq::empty()
    } else {
        let before = kept_children(children.drop_last());
        let last = children.last();
        let text = trimmed(last.text);
        if text.len() == 0 {
            before
        } else {
            before.push(ChildV { text, ..last })
        }
    }
}

/// Whether one of these margins uses an id, for its note or for its edge.
pub open spec fn uses_id(children: Seq<ChildV>, id: Seq<char>) -> bool {
    exists|i: int|
        0 <= i < children.len() && ((#[trigger] children[i]).id == id || children[i].link_id == id)
}

/// Whether a stored edge may be reused: it is a margin edge of this parent.
pub open spec fn link_reusable(link: Option<RowV>, parent: Seq<char>) -> bool {
    match link {
        Some(row) => row_text(row, "from_note_id"@) == Some(parent) && margin_relation(
            row_text(row, "relation_type"@),
        ),
        None => true,
    }
}

/// Whether a margin edge leads from the parent to the child.
pub open spec fn has_own_margin(links: Seq<LinkV>, parent: Seq<char>, child: Seq<char>) -> bool {
    exists|i: int| 0 <= i < links.len() && own_margin(#[trigger] links[i], parent, child)
}

/// Whether a live edge touches the child that is not a margin edge of this parent to it.
pub open spec fn has_foreign_edge(links: Seq<LinkV>, parent: Seq<char>, child: Seq<char>) -> bool {
    exists|i: int|
        0 <= i < links.len() && touches(#[trigger] links[i], child) && !own_margin(
            links[i],
            parent,
            child,
        )
}

/// Why a margin is refused, given the margins before it.
pub open spec fn child_refusal(
    mirror: Mirror,
    parent: Seq<char>,
    before: Seq<ChildV>,
    child: ChildV,
) -> Option<Seq<char>> {
    let link = mirror.row_of(Table::NoteLinks, child.link_id);
    let note = mirror.row_of(Table::Notes, child.id);
    if child.id == parent || child.link_id == parent {
        Some("replace_handwritten_annotations: child/link id collides with the parent id"@)
    } else if uses_id(before, child.id) || uses_id(before, child.link_id) || child.id
        == child.link_id {
        Some("replace_handwritten_annotations: duplicate child/link ids in one call"@)
    } else if !link_reusable(link, parent) {
        Some("replace_handwritten_annotations: link id collides with a non-margin edge"@)
    } else if note is Some && opt_row_text(note, "source"@) != Some("handwritten"@) {
        Some("replace_handwritten_annotations: child id collides with an existing non-margin note"@)
    } else if note is Some && opt_row_text(link, "to_note_id"@) != Some(child.id) && !has_own_margin(
        mirror.edges(),
        parent,
        child.id,
    ) {
        Some("replace_handwritten_annotations: child id collides with another parent's margin"@)
    } else if has_foreign_edge(mirror.edges(), parent, child.id) {
        Some(
            "replace_handwritten_annotations: reused child id is still referenced by another live edge"@,
        )
    } else {
        None
    }
}

/// Why margins are refused: the first of them that is.
pub open spec fn refusal(mirror: Mirror, parent: Seq<char>, children: Seq<ChildV>) -> Option<
    Seq<char>,
>
    decreases children.len(),
{
    if children.len() == 0 {
        None
    } else {
        match refusal(mirror, parent, children.drop_last()) {
            Some(reason) => Some(reason),
            None => child_refusal(mirror, parent, children.drop_last(), children.last()),
        }
    }
}

/// The message for a parent that is not there or deleted.
pub open spec fn parent_missing(parent: Seq<char>) -> Seq<char> {
    "replace_handwritten_annotations: parent "@ + parent + " not found or deleted"@
}

/// Why a replacement is refused. Without margins to file nothing is read and nothing refused.
pub open spec fn replace_refusal(
    mirror: Mirror,
    parent: Seq<char>,
    children: Seq<ChildV>,
) -> Option<Seq<char>> {
    let kept = kept_children(children);
    if kept.len() == 0 {
        None
    } else if !live_row(mirror.row_of(Table::Notes, parent)) {
        Some(parent_missing(parent))
    } else {
        refusal(mirror, parent, kept)
    }
}

fn keep_children(children: Vec<MarginChild>) -> (kept: Vec<MarginChild>)
    ensures
        children_view(kept@) == kept_children(children_view(children@)),
{
    let ghost all = children_view(children@);
    let mut kept: Vec<MarginChild> = Vec::new();
    let mut i: usize = 0;
    assert(children_view(kept@) =~= kept_children(all.take(0)));
    while i < children.len()
        invariant
            i <= children@.len(),
            all == children_view(children@),
            children_view(kept@) == kept_children(all.take(i as int)),
        decreases children.len() - i,
    {
        proof {
            assert(all.take(i + 1).drop_last() =~= all.take(i as int));
            assert(all.take(i + 1).last() == children@[i as int]@);
        }
        let child = &children[i];
        let text = trim_text(child.text.as_str());
        if !text.is_empty() {
            let ghost before = children_view(kept@);
            let next = MarginChild {
                id: child.id.clone(),
                link_id: child.link_id.clone(),
                text: text.to_owned(),
                ink_crop_path: child.ink_crop_path.clone(),
            };
            assert(next@ == ChildV { text: trimmed(child.text@), ..child@ });
            kept.push(next);
            assert(children_view(kept@) =~= before.push(next@));
        }
        i = i + 1;
    }
    assert(all.take(all.len() as int) =~= all);
    kept
}

/// Whether a replacement has margins to file. One without any is done before anything is read.
pub fn has_margins(children: &Vec<MarginChild>) -> (yes: bool)
    ensures
        yes == (kept_children(children_view(children@)).len() > 0),
{
    let ghost all = children_view(children@);
    let mut i: usize = 0;
    assert(all.take(0) =~= Seq::empty());
    while i < children.len()
        invariant
            i <= children@.len(),
            all == children_view(children@),
            kept_children(all.take(i as int)).len() == 0,
        decreases children.len() - i,
    {
        proof {
            assert(all.take(i + 1).drop_last() =~= all.take(i as int));
            assert(all.take(i + 1).last() == children@[i as int]@);
        }
        if !trim_text(children[i].text.as_str()).is_empty() {
            proof {
                lemma_kept_grow(all, i + 1);
            }
            return true;
        }
        i = i + 1;
    }
    assert(all.take(all.len() as int) =~= all);
    false
}

proof fn lemma_kept_grow(children: Seq<ChildV>, n: int)
    requires
        0 <= n <= children.len(),
    ensures
        kept_children(children.take(n)).len() <= kept_children(children).len(),
    decreases children.len(),
{
    if n < children.len() {
        assert(children.drop_last().take(n) =~= children.take(n));
        lemma_kept_grow(children.drop_last(), n);
    } else {
        assert(children.take(n) =~= children);
    }
}

fn id_used(children: &Vec<MarginChild>, upto: usize, id: &str) -> (yes: bool)
    requires
        upto <= children@.len(),
    ensures
        yes == uses_id(children_view(children@).take(upto as int), id@),
{
    let ghost before = children_view(children@).take(upto as int);
    let mut i: usize = 0;
    while i < upto
        invariant
            i <= upto,
            upto <= children@.len(),
            before == children_view(children@).take(upto as int),
            forall|j: int| 0 <= j < i ==> (#[trigger] before[j]).id != id@ && before[j].link_id != id@,
        decreases upto - i,
    {
        assert(before[i as int] == children@[i as int]@);
        if same_text(children[i].id.as_str(), id) || same_text(children[i].link_id.as_str(), id) {
            return true;
        }
        i = i + 1;
    }
    false
}

fn find_own_margin(links: &Vec<NoteLinkRecord>, parent: &str, child: &str) -> (yes: bool)
    ensures
        yes == has_own_margin(links_view(links@), parent@, child@),
{
    let ghost all = links_view(links@);
    let mut i: usize = 0;
    while i < links.len()
        invariant
            i <= links@.len(),
            all == links_view(links@),
            forall|j: int| 0 <= j < i ==> !own_margin(#[trigger] all[j], parent@, child@),
        decreases links.len() - i,
    {
        assert(all[i as int] == links@[i as int]@);
        if is_own_margin(&links[i], parent, child) {
            return true;
        }
        i = i + 1;
    }
    false
}

fn find_foreign_edge(links: &Vec<NoteLinkRecord>, parent: &str, child: &str) -> (yes: bool)
    ensures
        yes == has_foreign_edge(links_view(links@), parent@, child@),
{
    let ghost all = links_view(links@);
    let mut i: usize = 0;
    while i < links.len()
        invariant
            i <= links@.len(),
            all == links_view(links@),
            forall|j: int|
                0 <= j < i ==> !(touches(#[trigger] all[j], child@) && !own_margin(
                    all[j],
                    parent@,
                    child@,
                )),
        decreases links.len() - i,
    {
        assert(all[i as int] == links@[i as int]@);
        if link_touches(&links[i], child) && !is_own_margin(&links[i], parent, child) {
            return true;
        }
        i = i + 1;
    }
    false
}

fn check_child(mirror: &Mirror, parent: &str, children: &Vec<MarginChild>, at: usize) -> (reason: Option<
    &'static str,
>)
    requires
        at < children@.len(),
    ensures
        match reason {
            Some(m) => child_refusal(
                *mirror,
                parent@,
                children_view(children@).take(at as int),
                children@[at as int]@,
            ) == Some(m@),
            None => child_refusal(
                *mirror,
                parent@,
                children_view(children@).take(at as int),
                children@[at as int]@,
            ) is None,
        },
{
    let child = &children[at];
    let id = child.id.as_str();
    let link_id = child.link_id.as_str();
    if same_text(id, parent) || same_text(link_id, parent) {
        return Some("replace_handwritten_annotations: child/link id collides with the parent id");
    }
    if id_used(children, at, id) || id_used(children, at, link_id) || same_text(id, link_id) {
        return Some("replace_handwritten_annotations: duplicate child/link ids in one call");
    }
    let link = mirror.get_row(Table::NoteLinks, link_id);
    if let Some(row) = link {
        let same_parent = match row.get_text("from_note_id") {
            Some(from) => same_text(from.as_str(), parent),
            None => false,
        };
        if !(same_parent && is_margin_relation(row.get_text("relation_type"))) {
            return Some("replace_handwritten_annotations: link id collides with a non-margin edge");
        }
    }
    let note = mirror.get_row(Table::Notes, id);
    if note.is_some() {
        let handwritten = match text_of(note, "source") {
            Some(source) => same_text(source.as_str(), "handwritten"),
            None => false,
        };
        if !handwritten {
            return Some(
                "replace_handwritten_annotations: child id collides with an existing non-margin note",
            );
        }
        let paired = match text_of(link, "to_note_id") {
            Some(to) => same_text(to.as_str(), id),
            None => false,
        };
        if !(paired || find_own_margin(&mirror.links, parent, id)) {
            return Some(
                "replace_handwritten_annotations: child id collides with another parent's margin",
            );
        }
    }
    if find_foreign_edge(&mirror.links, parent, id) {
        return Some(
            "replace_handwritten_annotations: reused child id is still referenced by another live edge",
        );
    }
    None
}

proof fn lemma_refusal_prefix(
    mirror: Mirror,
    parent: Seq<char>,
    children: Seq<ChildV>,
    i: int,
)
    requires
        0 <= i < children.len(),
        refusal(mirror, parent, children.take(i + 1)) is Some,
    ensures
        refusal(mirror, parent, children) == refusal(mirror, parent, children.take(i + 1)),
    decreases children.len(),
{
    if i == children.len() - 1 {
        assert(children.take(i + 1) =~= children);
    } else {
        assert(children.drop_last().take(i + 1) =~= children.take(i + 1));
        lemma_refusal_prefix(mirror, parent, children.drop_last(), i);
    }
}

fn check_children(mirror: &Mirror, parent: &str, children: &Vec<MarginChild>) -> (reason: Option<
    &'static str,
>)
    ensures
        match reason {
            Some(m) => refusal(*mirror, parent@, children_view(children@)) == Some(m@),
            None => refusal(*mirror, parent@, children_view(children@)) is None,
        },
{
    let ghost all = children_view(children@);
    let mut i: usize = 0;
    assert(all.take(0).len() == 0);
    while i < children.len()
        invariant
            i <= children@.len(),
            all == children_view(children@),
            refusal(*mirror, parent@, all.take(i as int)) is None,
        decreases children.len() - i,
    {
        proof {
            assert(all.take(i + 1).drop_last() =~= all.take(i as int));
            assert(all.take(i + 1).last() == children@[i as int]@);
        }
        match check_child(mirror, parent, children, i) {
            Some(reason) => {
                proof {
                    lemma_refusal_prefix(*mirror, parent@, all, i as int);
                }
                return Some(reason);
            },
            None => {},
        }
        i = i + 1;
    }
    assert(all.take(all.len() as int) =~= all);
    None
}

/// Whether a plan is the checked form of a replacement.
pub open spec fn planned(
    plan: ReplacePlan,
    mirror: Mirror,
    parent: Seq<char>,
    children: Seq<ChildV>,
) -> bool {
    let row = mirror.row_of(Table::Notes, parent);
    &&& plan.parent_id@ == parent
    &&& children_view(plan.children@) == kept_children(children)
    &&& plan.children@.len() > 0 ==> opt_string(plan.book_id) == opt_row_text(row, "book_id"@)
    &&& plan.children@.len() > 0 ==> opt_string(plan.source) == opt_row_text(row, "source"@)
}

pub open spec fn opt_string(text: Option<String>) -> Option<Seq<char>> {
    match text {
        Some(s) => Some(s@),
        None => None,
    }
}

fn owned(text: Option<&String>) -> (out: Option<String>)
    ensures
        opt_string(out) == opt_text(text),
{
    match text {
        Some(s) => Some(s.clone()),
        None => None,
    }
}

/// Checks a replacement of a note's margins. Blank margins alone are never refused, and make a plan
/// that files none.
pub fn plan_replace(mirror: &Mirror, parent_id: String, children: Vec<MarginChild>) -> (plan: Result<
    ReplacePlan,
    SyncError,
>)
    ensures
        match (plan, replace_refusal(*mirror, parent_id@, children_view(children@))) {
            (Ok(p), None) => planned(p, *mirror, parent_id@, children_view(children@)),
            (Err(e), Some(reason)) => store_error(e, reason),
            _ => false,
        },
{
    let kept = keep_children(children);
    if kept.len() == 0 {
        return Ok(ReplacePlan { parent_id, book_id: None, source: None, children: kept });
    }
    let parent = mirror.get_row(Table::Notes, parent_id.as_str());
    if !is_live_row(parent) {
        let mut message = joined("replace_handwritten_annotations: parent ", parent_id.as_str());
        message.append(" not found or deleted");
        return Err(SyncError::Store(message));
    }
    match check_children(mirror, parent_id.as_str(), &kept) {
        Some(reason) => Err(SyncError::store(reason)),
        None => {
            let book_id = owned(text_of(parent, "book_id"));
            let source = owned(text_of(parent, "source"));
            Ok(ReplacePlan { parent_id, book_id, source, children: kept })
        },
    }
}

/// A sealed text by its contents.
pub struct SealV {
    pub ciphertext: Seq<char>,
    pub content_tag: Seq<char>,
}

impl View for SealedText {
    type V = SealV;

    open spec fn view(&self) -> SealV {
        SealV { ciphertext: self.ciphertext@, content_tag: self.content_tag@ }
    }
}

pub open spec fn seals_view(seals: Seq<SealedText>) -> Seq<SealV> {
    seals.map_values(|s: SealedText| s@)
}

/// A write to a table.
pub open spec fn write_to(table: Seq<char>, record_id: Seq<char>, row: RowV) -> WriteV {
    WriteV { table, record_id, row }
}

/// The row of a filed margin. Every column is written, so that none of a reused row survives.
pub open spec fn margin_note_row(
    child: ChildV,
    book: Option<Seq<char>>,
    seal: SealV,
    created: i64,
) -> RowV {
    Map::<Seq<char>, JsonV>::empty().insert("id"@, JsonV::Str(child.id)).insert(
        "book_id"@,
        crate::import::text_or_null(book),
    ).insert("text"@, JsonV::Str(seal.ciphertext)).insert(
        "content_tag"@,
        JsonV::Str(seal.content_tag),
    ).insert("tags"@, JsonV::Arr(Seq::empty())).insert("source"@, JsonV::Str("handwritten"@)).insert(
        "page"@,
        JsonV::Str(""@),
    ).insert("chapter"@, JsonV::Null).insert("image_path"@, JsonV::Null).insert(
        "ink_crop_path"@,
        crate::import::text_or_null(child.ink_crop_path),
    ).insert("source_id"@, JsonV::Null).insert("source_meta"@, JsonV::Obj(Map::empty())).insert(
        "created_at"@,
        int_json(created),
    ).insert("updated_at"@, int_json(created)).insert("deleted"@, JsonV::Bool(false))
}

/// The columns of an edge.
pub open spec fn link_row(
    id: Seq<char>,
    from: Seq<char>,
    to: Seq<char>,
    relation: Seq<char>,
    created_at: i64,
    updated_at: i64,
    deleted: bool,
) -> RowV {
    Map::<Seq<char>, JsonV>::empty().insert("id"@, JsonV::Str(id)).insert(
        "from_note_id"@,
        JsonV::Str(from),
    ).insert("to_note_id"@, JsonV::Str(to)).insert("relation_type"@, JsonV::Str(relation)).insert(
        "created_at"@,
        int_json(created_at),
    ).insert("updated_at"@, int_json(updated_at)).insert("deleted"@, JsonV::Bool(deleted))
}

/// The two writes that file the margin at place `i`.
pub open spec fn file_margin(
    child: ChildV,
    parent: Seq<char>,
    book: Option<Seq<char>>,
    seal: SealV,
    created: i64,
) -> Seq<WriteV> {
    seq![
        write_to("notes"@, child.id, margin_note_row(child, book, seal, created)),
        write_to(
            "note_links"@,
            child.link_id,
            link_row(
                child.link_id,
                parent,
                child.id,
                "handwritten_annotation"@,
                created,
                created,
                false,
            ),
        ),
    ]
}

/// The writes that file margins, in order; each is stamped one later than the one before.
pub open spec fn file_margins(
    children: Seq<ChildV>,
    parent: Seq<char>,
    book: Option<Seq<char>>,
    seals: Seq<SealV>,
    now: i64,
) -> Seq<WriteV>
    decreases children.len(),
{
    if children.len() == 0 {
        Seq::empty()
    } else {
        let i = children.len() - 1;
        file_margins(children.drop_last(), parent, book, seals, now) + file_margin(
            children.last(),
            parent,
            book,
            seals[i],
            (now + i) as i64,
        )
    }
}

/// Builds the columns of an edge.
pub fn build_link_row(
    id: &str,
    from: &str,
    to: &str,
    relation: &str,
    created_at: i64,
    updated_at: i64,
    deleted: bool,
) -> (row: Fields)
    ensures
        row@ == link_row(id@, from@, to@, relation@, created_at, updated_at, deleted),
{
    let mut row = Fields::new();
    row.insert("id", Json::text(id));
    row.insert("from_note_id", Json::text(from));
    row.insert("to_note_id", Json::text(to));
    row.insert("relation_type", Json::text(relation));
    row.insert("created_at", Json::integer(created_at));
    row.insert("updated_at", Json::integer(updated_at));
    row.insert("deleted", Json::Bool(deleted));
    row
}

fn build_margin_note(child: &MarginChild, book: &Option<String>, seal: &SealedText, created: i64) -> (row: Fields)
    ensures
        row@ == margin_note_row(child@, opt_string(*book), seal@, created),
{
    let mut row = Fields::new();
    row.insert("id", Json::text(child.id.as_str()));
    row.insert("book_id", Json::text_or_null(book));
    row.insert("text", Json::text(seal.ciphertext.as_str()));
    row.insert("content_tag", Json::text(seal.content_tag.as_str()));
    let no_tags: Vec<Json> = Vec::new();
    proof {
        crate::json::lemma_items_view(no_tags@);
        assert(crate::json::items_view(no_tags@) =~= Seq::empty());
    }
    row.insert("tags", Json::Arr(no_tags));
    row.insert("source", Json::text("handwritten"));
    row.insert("page", Json::text(""));
    row.insert("chapter", Json::Null);
    row.insert("image_path", Json::Null);
    row.insert("ink_crop_path", Json::text_or_null(&child.ink_crop_path));
    row.insert("source_id", Json::Null);
    row.insert("source_meta", Json::Obj(Fields::new()));
    row.insert("created_at", Json::integer(created));
    row.insert("updated_at", Json::integer(created));
    row.insert("deleted", Json::Bool(false));
    row
}

/// Appends a write to a batch.
pub fn push_write(writes: &mut Vec<Write>, table: &str, record_id: &str, row: Fields)
    ensures
        writes_view(final(writes)@) == writes_view(old(writes)@).push(
            write_to(table@, record_id@, row@),
        ),
{
    let ghost before = writes_view(writes@);
    let write = Write { table: table.to_owned(), record_id: record_id.to_owned(), row };
    writes.push(write);
    assert(writes_view(writes@) =~= before.push(write@));
}

fn create_margins(plan: &ReplacePlan, seals: &Vec<SealedText>, now: i64) -> (writes: Vec<Write>)
    requires
        seals@.len() == plan.children@.len(),
        now + plan.children@.len() <= i64::MAX + 1,
    ensures
        writes_view(writes@) == file_margins(
            children_view(plan.children@),
            plan.parent_id@,
            opt_string(plan.book_id),
            seals_view(seals@),
            now,
        ),
{
    let ghost all = children_view(plan.children@);
    let mut writes: Vec<Write> = Vec::new();
    let mut i: usize = 0;
    let mut created: i64 = now;
    assert(writes_view(writes@) =~= Seq::empty());
    while i < plan.children.len()
        invariant
            i <= plan.children@.len(),
            i < plan.children@.len() ==> created == now + i,
            seals@.len() == plan.children@.len(),
            now + plan.children@.len() <= i64::MAX + 1,
            all == children_view(plan.children@),
            writes_view(writes@) == file_margins(
                all.take(i as int),
                plan.parent_id@,
                opt_string(plan.book_id),
                seals_view(seals@),
                now,
            ),
        decreases plan.children.len() - i,
    {
        let child = &plan.children[i];
        let ghost before = writes_view(writes@);
        push_write(
            &mut writes,
            "notes",
            child.id.as_str(),
            build_margin_note(child, &plan.book_id, &seals[i], created),
        );
        push_write(
            &mut writes,
            "note_links",
            child.link_id.as_str(),
            build_link_row(
                child.link_id.as_str(),
                plan.parent_id.as_str(),
                child.id.as_str(),
                "handwritten_annotation",
                created,
                created,
                false,
            ),
        );
        proof {
            assert(all.take(i + 1).drop_last() =~= all.take(i as int));
            assert(all.take(i + 1).last() == child@);
            assert(seals_view(seals@)[i as int] == seals@[i as int]@);
            assert(writes_view(writes@) =~= before + file_margin(
                child@,
                plan.parent_id@,
                opt_string(plan.book_id),
                seals@[i as int]@,
                created,
            ));
        }
        i = i + 1;
        if i < plan.children.len() {
            created = created + 1;
        }
    }
    assert(all.take(all.len() as int) =~= all);
    writes
}

/// The margin edges of a parent, in order.
pub open spec fn margins_of(links: Seq<LinkV>, parent: Seq<char>) -> Seq<LinkV>
    decreases links.len(),
{
    if links.len() == 0 {
        Seq::empty()
    } else if margin_of(links.last(), parent) {
        margins_of(links.drop_last(), parent).push(links.last())
    } else {
        margins_of(links.drop_last(), parent)
    }
}

pub open spec fn refs_view(links: Seq<&NoteLinkRecord>) -> Seq<LinkV> {
    links.map_values(|l: &NoteLinkRecord| l@)
}

fn list_margins<'a>(links: &'a Vec<NoteLinkRecord>, parent: &str) -> (margins: Vec<
    &'a NoteLinkRecord,
>)
    ensures
        refs_view(margins@) == margins_of(links_view(links@), parent@),
{
    let ghost all = links_view(links@);
    let mut margins: Vec<&'a NoteLinkRecord> = Vec::new();
    let mut i: usize = 0;
    assert(refs_view(margins@) =~= Seq::empty());
    while i < links.len()
        invariant
            i <= links@.len(),
            all == links_view(links@),
            refs_view(margins@) == margins_of(all.take(i as int), parent@),
        decreases links.len() - i,
    {
        proof {
            assert(all.take(i + 1).drop_last() =~= all.take(i as int));
            assert(all.take(i + 1).last() == links@[i as int]@);
        }
        if is_margin_of(&links[i], parent) {
            let ghost before = refs_view(margins@);
            margins.push(&links[i]);
            assert(refs_view(margins@) =~= before.push(links@[i as int]@));
        }
        i = i + 1;
    }
    assert(all.take(all.len() as int) =~= all);
    margins
}

/// Whether one of these edges has an id.
pub open spec fn has_link_id(links: Seq<LinkV>, id: Seq<char>) -> bool {
    exists|i: int| 0 <= i < links.len() && (#[trigger] links[i]).id == id
}

fn link_id_listed(links: &Vec<&NoteLinkRecord>, id: &str) -> (yes: bool)
    ensures
        yes == has_link_id(refs_view(links@), id@),
{
    let ghost all = refs_view(links@);
    let mut i: usize = 0;
    while i < links.len()
        invariant
            i <= links@.len(),
            all == refs_view(links@),
            forall|j: int| 0 <= j < i ==> (#[trigger] all[j]).id != id@,
        decreases links.len() - i,
    {
        assert(all[i as int] == links@[i as int]@);
        if same_text(links[i].id.as_str(), id) {
            return true;
        }
        i = i + 1;
    }
    false
}

/// Whether a live edge outside a set of edges touches a note.
pub open spec fn touched_outside(links: Seq<LinkV>, id: Seq<char>, inside: Seq<LinkV>) -> bool {
    exists|i: int|
        0 <= i < links.len() && touches(#[trigger] links[i], id) && !has_link_id(
            inside,
            links[i].id,
        )
}

fn find_touched_outside(links: &Vec<NoteLinkRecord>, id: &str, inside: &Vec<&NoteLinkRecord>) -> (yes: bool)
    ensures
        yes == touched_outside(links_view(links@), id@, refs_view(inside@)),
{
    let ghost all = links_view(links@);
    let mut i: usize = 0;
    while i < links.len()
        invariant
            i <= links@.len(),
            all == links_view(links@),
            forall|j: int|
                0 <= j < i ==> !(touches(#[trigger] all[j], id@) && !has_link_id(
                    refs_view(inside@),
                    all[j].id,
                )),
        decreases links.len() - i,
    {
        assert(all[i as int] == links@[i as int]@);
        if link_touches(&links[i], id) && !link_id_listed(inside, links[i].id.as_str()) {
            return true;
        }
        i = i + 1;
    }
    false
}

/// Whether one of these margins has this note id.
pub open spec fn has_child_id(children: Seq<ChildV>, id: Seq<char>) -> bool {
    exists|i: int| 0 <= i < children.len() && (#[trigger] children[i]).id == id
}

/// Whether one of these margins has this edge id.
pub open spec fn has_child_link(children: Seq<ChildV>, id: Seq<char>) -> bool {
    exists|i: int| 0 <= i < children.len() && (#[trigger] children[i]).link_id == id
}

fn child_id_listed(children: &Vec<MarginChild>, id: &str) -> (yes: bool)
    ensures
        yes == has_child_id(children_view(children@), id@),
{
    let ghost all = children_view(children@);
    let mut i: usize = 0;
    while i < children.len()
        invariant
            i <= children@.len(),
            all == children_view(children@),
            forall|j: int| 0 <= j < i ==> (#[trigger] all[j]).id != id@,
        decreases children.len() - i,
    {
        assert(all[i as int] == children@[i as int]@);
        if same_text(children[i].id.as_str(), id) {
            return true;
        }
        i = i + 1;
    }
    false
}

fn child_link_listed(children: &Vec<MarginChild>, id: &str) -> (yes: bool)
    ensures
        yes == has_child_link(children_view(children@), id@),
{
    let ghost all = children_view(children@);
    let mut i: usize = 0;
    while i < children.len()
        invariant
            i <= children@.len(),
            all == children_view(children@),
            forall|j: int| 0 <= j < i ==> (#[trigger] all[j]).link_id != id@,
        decreases children.len() - i,
    {
        assert(all[i as int] == children@[i as int]@);
        if same_text(children[i].link_id.as_str(), id) {
            return true;
        }
        i = i + 1;
    }
    false
}

/// The tombstone of an edge: the full row, stamped.
pub open spec fn link_tombstone(link: LinkV, stamp: i64) -> WriteV {
    write_to(
        "note_links"@,
        link.id,
        link_row(
            link.id,
            link.from,
            link.to,
            match link.relation {
                Some(s) => s,
                None => "handwritten_annotation"@,
            },
            link.created_at,
            stamp,
            true,
        ),
    )
}

/// The tombstone of a note: a patch of the stored row.
pub open spec fn note_tombstone(id: Seq<char>, now: i64) -> WriteV {
    write_to(
        "notes"@,
        id,
        Map::<Seq<char>, JsonV>::empty().insert("id"@, JsonV::Str(id)).insert(
            "deleted"@,
            JsonV::Bool(true),
        ).insert("updated_at"@, int_json(now)),
    )
}

/// Whether a note is a live margin that no live edge outside the retired ones touches.
pub open spec fn spent_margin(mirror: Mirror, id: Seq<char>, retired: Seq<LinkV>) -> bool {
    let note = mirror.row_of(Table::Notes, id);
    live_row(note) && opt_row_text(note, "source"@) == Some("handwritten"@) && !touched_outside(
        mirror.edges(),
        id,
        retired,
    )
}

/// The writes that retire prior margins, and the notes tombstoned by them.
pub struct Retired {
    pub writes: Seq<WriteV>,
    pub notes: Seq<Seq<char>>,
}

/// Retires one prior edge: its tombstone unless it is filed anew, and the tombstone of its note
/// where that is a spent margin that is not filed anew.
pub open spec fn retire_edge(
    done: Retired,
    mirror: Mirror,
    parent: Seq<char>,
    children: Seq<ChildV>,
    prior: Seq<LinkV>,
    edge: LinkV,
    now: i64,
) -> Retired {
    let writes = if has_child_link(children, edge.id) {
        done.writes
    } else {
        done.writes.push(link_tombstone(edge, now))
    };
    if !done.notes.contains(edge.to) && !has_child_id(children, edge.to) && edge.to != parent
        && spent_margin(mirror, edge.to, prior) {
        Retired {
            writes: writes.push(note_tombstone(edge.to, now)),
            notes: done.notes.push(edge.to),
        }
    } else {
        Retired { writes, notes: done.notes }
    }
}

/// Retires prior edges in order.
pub open spec fn retire_edges(
    mirror: Mirror,
    parent: Seq<char>,
    children: Seq<ChildV>,
    prior: Seq<LinkV>,
    edges: Seq<LinkV>,
    now: i64,
) -> Retired
    decreases edges.len(),
{
    if edges.len() == 0 {
        Retired { writes: Seq::empty(), notes: Seq::empty() }
    } else {
        retire_edge(
            retire_edges(mirror, parent, children, prior, edges.drop_last(), now),
            mirror,
            parent,
            children,
            prior,
            edges.last(),
            now,
        )
    }
}

fn build_link_tombstone(link: &NoteLinkRecord, stamp: i64) -> (row: Fields)
    ensures
        row@ == link_tombstone(link@, stamp).row,
{
    let relation = match &link.relation_type {
        Some(s) => s.as_str(),
        None => "handwritten_annotation",
    };
    build_link_row(
        link.id.as_str(),
        link.from_note_id.as_str(),
        link.to_note_id.as_str(),
        relation,
        link.created_at,
        stamp,
        true,
    )
}

fn is_spent_margin(mirror: &Mirror, id: &str, retired: &Vec<&NoteLinkRecord>) -> (yes: bool)
    ensures
        yes == spent_margin(*mirror, id@, refs_view(retired@)),
{
    let note = mirror.get_row(Table::Notes, id);
    if !is_live_row(note) {
        return false;
    }
    let handwritten = match text_of(note, "source") {
        Some(source) => same_text(source.as_str(), "handwritten"),
        None => false,
    };
    handwritten && !find_touched_outside(&mirror.links, id, retired)
}

fn retire_margins(mirror: &Mirror, plan: &ReplacePlan, now: i64, writes: &mut Vec<Write>)
    ensures
        writes_view(final(writes)@) == writes_view(old(writes)@) + retire_edges(
            *mirror,
            plan.parent_id@,
            children_view(plan.children@),
            margins_of(mirror.edges(), plan.parent_id@),
            margins_of(mirror.edges(), plan.parent_id@),
            now,
        ).writes,
{
    let prior = list_margins(&mirror.links, plan.parent_id.as_str());
    let ghost all = refs_view(prior@);
    let ghost children = children_view(plan.children@);
    let mut tombstoned: Vec<String> = Vec::new();
    let mut i: usize = 0;
    assert(crate::json::texts_view(tombstoned@) =~= Seq::empty());
    assert(writes_view(writes@) =~= writes_view(writes@) + Seq::empty());
    while i < prior.len()
        invariant
            i <= prior@.len(),
            all == refs_view(prior@),
            children == children_view(plan.children@),
            writes_view(writes@) == writes_view(old(writes)@) + retire_edges(
                *mirror,
                plan.parent_id@,
                children,
                all,
                all.take(i as int),
                now,
            ).writes,
            crate::json::texts_view(tombstoned@) == retire_edges(
                *mirror,
                plan.parent_id@,
                children,
                all,
                all.take(i as int),
                now,
            ).notes,
        decreases prior.len() - i,
    {
        let edge = prior[i];
        let ghost start = writes_view(old(writes)@);
        let ghost done = retire_edges(
            *mirror,
            plan.parent_id@,
            children,
            all,
            all.take(i as int),
            now,
        );
        proof {
            assert(all.take(i + 1).drop_last() =~= all.take(i as int));
            assert(all.take(i + 1).last() == edge@);
        }
        if !child_link_listed(&plan.children, edge.id.as_str()) {
            push_write(writes, "note_links", edge.id.as_str(), build_link_tombstone(edge, now));
            assert(writes_view(writes@) =~= start + done.writes.push(link_tombstone(edge@, now)));
        }
        let ghost middle = writes_view(writes@);
        let child = edge.to_note_id.as_str();
        if !holds_text(&tombstoned, child) && !child_id_listed(&plan.children, child)
            && !same_text(child, plan.parent_id.as_str()) && is_spent_margin(mirror, child, &prior) {
            let mut row = Fields::new();
            row.insert("id", Json::text(child));
            row.insert("deleted", Json::Bool(true));
            row.insert("updated_at", Json::integer(now));
            push_write(writes, "notes", child, row);
            let ghost before = crate::json::texts_view(tombstoned@);
            tombstoned.push(edge.to_note_id.clone());
            proof {
                assert(crate::json::texts_view(tombstoned@) =~= before.push(edge@.to));
                let next = retire_edge(
                    done,
                    *mirror,
                    plan.parent_id@,
                    children,
                    all,
                    edge@,
                    now,
                );
                assert(writes_view(writes@) =~= start + next.writes);
            }
        }
        i = i + 1;
    }
    assert(all.take(all.len() as int) =~= all);
}

/// The batch that replaces a note's margins: the new margins, the retirement of the prior ones,
/// and the parent's signal row. Without new margins the prior ones are left alone.
pub open spec fn replace_batch(
    mirror: Mirror,
    parent: Seq<char>,
    book: Option<Seq<char>>,
    children: Seq<ChildV>,
    seals: Seq<SealV>,
    now: i64,
    signal: Option<RowV>,
) -> Seq<WriteV> {
    if children.len() == 0 {
        Seq::empty()
    } else {
        let prior = margins_of(mirror.edges(), parent);
        let rows = file_margins(children, parent, book, seals, now) + retire_edges(
            mirror,
            parent,
            children,
            prior,
            prior,
            now,
        ).writes;
        match signal {
            Some(row) => rows.push(write_to("note_signals"@, parent, row)),
            None => rows,
        }
    }
}

/// Drafts the parent's signal row for a replacement: annotated, and engaged with now.
pub fn replace_signal(mirror: &Mirror, plan: &ReplacePlan, now: i64) -> (draft: SignalDraft)
    ensures
        draft@ == draft_of(
            mirror.row_of(Table::NoteSignals, plan.parent_id@),
            plan.parent_id@,
            opt_string(plan.source),
            now,
            SignalChange::MarginsSaved,
        ),
{
    draft_signal_write(
        mirror.get_row(Table::NoteSignals, plan.parent_id.as_str()),
        plan.parent_id.as_str(),
        plan.source.as_ref(),
        now,
        SignalChange::MarginsSaved,
    )
}

/// Builds the batch that replaces a note's margins; an empty one where the plan files none.
pub fn replace_handwritten_annotations(
    mirror: &Mirror,
    plan: &ReplacePlan,
    seals: &Vec<SealedText>,
    draft: &SignalDraft,
    score: Score,
    now: i64,
) -> (writes: Vec<Write>)
    requires
        seals@.len() == plan.children@.len(),
        now + plan.children@.len() <= i64::MAX + 1,
    ensures
        writes_view(writes@) == replace_batch(
            *mirror,
            plan.parent_id@,
            opt_string(plan.book_id),
            children_view(plan.children@),
            seals_view(seals@),
            now,
            scored(draft@, score),
        ),
{
    if plan.children.len() == 0 {
        let none: Vec<Write> = Vec::new();
        assert(writes_view(none@) =~= Seq::empty());
        return none;
    }
    let mut writes = create_margins(plan, seals, now);
    retire_margins(mirror, plan, now, &mut writes);
    if let Some(row) = stage_signal_write(draft, score) {
        push_write(&mut writes, "note_signals", plan.parent_id.as_str(), row);
    }
    writes
}


/// The margin edges that lead to a note, in order.
pub open spec fn margins_to(links: Seq<LinkV>, child: Seq<char>) -> Seq<LinkV>
    decreases links.len(),
{
    if links.len() == 0 {
        Seq::empty()
    } else if links.last().to == child && margin_relation(links.last().relation) {
        margins_to(links.drop_last(), child).push(links.last())
    } else {
        margins_to(links.drop_last(), child)
    }
}

fn list_margins_to<'a>(links: &'a Vec<NoteLinkRecord>, child: &str) -> (margins: Vec<
    &'a NoteLinkRecord,
>)
    ensures
        refs_view(margins@) == margins_to(links_view(links@), child@),
{
    let ghost all = links_view(links@);
    let mut margins: Vec<&'a NoteLinkRecord> = Vec::new();
    let mut i: usize = 0;
    assert(refs_view(margins@) =~= Seq::empty());
    while i < links.len()
        invariant
            i <= links@.len(),
            all == links_view(links@),
            refs_view(margins@) == margins_to(all.take(i as int), child@),
        decreases links.len() - i,
    {
        proof {
            assert(all.take(i + 1).drop_last() =~= all.take(i as int));
            assert(all.take(i + 1).last() == links@[i as int]@);
        }
        let link = &links[i];
        if same_text(link.to_note_id.as_str(), child) && is_margin_relation(
            link.relation_type.as_ref(),
        ) {
            let ghost before = refs_view(margins@);
            margins.push(link);
            assert(refs_view(margins@) =~= before.push(link@));
        }
        i = i + 1;
    }
    assert(all.take(all.len() as int) =~= all);
    margins
}

/// Whether a margin edge of a parent outlives the retired ones.
pub open spec fn margin_survives(links: Seq<LinkV>, parent: Seq<char>, retired: Seq<LinkV>) -> bool {
    exists|i: int|
        0 <= i < links.len() && margin_of(#[trigger] links[i], parent) && !has_link_id(
            retired,
            links[i].id,
        )
}

fn find_surviving_margin(links: &Vec<NoteLinkRecord>, parent: &str, retired: &Vec<&NoteLinkRecord>) -> (yes: bool)
    ensures
        yes == margin_survives(links_view(links@), parent@, refs_view(retired@)),
{
    let ghost all = links_view(links@);
    let mut i: usize = 0;
    while i < links.len()
        invariant
            i <= links@.len(),
            all == links_view(links@),
            forall|j: int|
                0 <= j < i ==> !(margin_of(#[trigger] all[j], parent@) && !has_link_id(
                    refs_view(retired@),
                    all[j].id,
                )),
        decreases links.len() - i,
    {
        assert(all[i as int] == links@[i as int]@);
        if is_margin_of(&links[i], parent) && !link_id_listed(retired, links[i].id.as_str()) {
            return true;
        }
        i = i + 1;
    }
    false
}

/// Whether a parent's margins are counted again: it is live and not the deleted note, and it has
/// a signal row or a margin that survives.
pub open spec fn recounted(
    mirror: Mirror,
    deleted: Seq<char>,
    retired: Seq<LinkV>,
    parent: Seq<char>,
) -> bool {
    parent != deleted && live_row(mirror.row_of(Table::Notes, parent)) && (margin_survives(
        mirror.edges(),
        parent,
        retired,
    ) || mirror.row_of(Table::NoteSignals, parent) is Some)
}

/// A parent's signal row with its margins counted again.
pub open spec fn recount(mirror: Mirror, retired: Seq<LinkV>, parent: Seq<char>, now: i64) -> DraftV {
    draft_of(
        mirror.row_of(Table::NoteSignals, parent),
        parent,
        opt_row_text(mirror.row_of(Table::Notes, parent), "source"@),
        now,
        SignalChange::Annotated(margin_survives(mirror.edges(), parent, retired)),
    )
}

/// The stamp of the signal row that is stored for a note.
pub open spec fn signal_stamp(mirror: Mirror, note_id: Seq<char>) -> i64 {
    int_or(mirror.row_of(Table::NoteSignals, note_id), "updated_at"@, 0)
}

/// A counted row stamped after the stored one.
pub open spec fn stamped(mirror: Mirror, draft: DraftV, now: i64) -> DraftV {
    DraftV { updated_at: stamp_after(now, signal_stamp(mirror, draft.note_id)), ..draft }
}

/// Whether one of these edges leads from a note.
pub open spec fn leads_from(links: Seq<LinkV>, parent: Seq<char>) -> bool {
    exists|i: int| 0 <= i < links.len() && (#[trigger] links[i]).from == parent
}

/// The signal rows of the affected parents, each once, in the order of the edges.
pub open spec fn recounts(
    mirror: Mirror,
    deleted: Seq<char>,
    retired: Seq<LinkV>,
    edges: Seq<LinkV>,
    now: i64,
) -> Seq<DraftV>
    decreases edges.len(),
{
    if edges.len() == 0 {
        Seq::empty()
    } else {
        let before = recounts(mirror, deleted, retired, edges.drop_last(), now);
        let parent = edges.last().from;
        if !leads_from(edges.drop_last(), parent) && recounted(mirror, deleted, retired, parent) {
            before.push(recount(mirror, retired, parent, now))
        } else {
            before
        }
    }
}

/// The tombstones of edges, each stamped after the stored edge.
pub open spec fn link_tombstones(links: Seq<LinkV>, now: i64) -> Seq<WriteV> {
    links.map_values(|l: LinkV| link_tombstone(l, stamp_after(now, l.updated_at)))
}

/// What deleting a note does to its margin edges: their tombstones, and the signal rows of the
/// affected parents before they are scored.
#[derive(Debug)]
pub struct CascadePlan {
    pub edges: Vec<Write>,
    pub recounts: Vec<SignalDraft>,
}

pub open spec fn drafts_view(drafts: Seq<SignalDraft>) -> Seq<DraftV> {
    drafts.map_values(|d: SignalDraft| d@)
}

/// Whether the tombstone of every edge that a cascade retires has room after the stored edge.
pub open spec fn cascade_fits(mirror: Mirror, deleted: Seq<char>) -> bool {
    let retired = margins_to(mirror.edges(), deleted);
    forall|i: int| 0 <= i < retired.len() ==> (#[trigger] retired[i]).updated_at < i64::MAX
}

/// Whether every counted row that is written has room after the stored one.
pub open spec fn recounts_fit(mirror: Mirror, drafts: Seq<DraftV>, scores: Seq<Score>) -> bool {
    forall|i: int|
        0 <= i < drafts.len() && scored(#[trigger] drafts[i], scores[i]) is Some ==> signal_stamp(
            mirror,
            drafts[i].note_id,
        ) < i64::MAX
}

fn from_listed(links: &Vec<&NoteLinkRecord>, upto: usize, parent: &str) -> (yes: bool)
    requires
        upto <= links@.len(),
    ensures
        yes == leads_from(refs_view(links@).take(upto as int), parent@),
{
    let ghost before = refs_view(links@).take(upto as int);
    let mut i: usize = 0;
    while i < upto
        invariant
            i <= upto,
            upto <= links@.len(),
            before == refs_view(links@).take(upto as int),
            forall|j: int| 0 <= j < i ==> (#[trigger] before[j]).from != parent@,
        decreases upto - i,
    {
        assert(before[i as int] == links@[i as int]@);
        if same_text(links[i].from_note_id.as_str(), parent) {
            return true;
        }
        i = i + 1;
    }
    false
}

fn is_recounted(mirror: &Mirror, deleted: &str, retired: &Vec<&NoteLinkRecord>, parent: &str) -> (yes: bool)
    ensures
        yes == recounted(*mirror, deleted@, refs_view(retired@), parent@),
{
    if same_text(parent, deleted) {
        return false;
    }
    if !is_live_row(mirror.get_row(Table::Notes, parent)) {
        return false;
    }
    find_surviving_margin(&mirror.links, parent, retired) || mirror.get_row(
        Table::NoteSignals,
        parent,
    ).is_some()
}

fn build_recount(mirror: &Mirror, retired: &Vec<&NoteLinkRecord>, parent: &str, now: i64) -> (draft: SignalDraft)
    ensures
        draft@ == recount(*mirror, refs_view(retired@), parent@, now),
{
    let stored = mirror.get_row(Table::NoteSignals, parent);
    let survives = find_surviving_margin(&mirror.links, parent, retired);
    draft_signal_write(
        stored,
        parent,
        text_of(mirror.get_row(Table::Notes, parent), "source"),
        now,
        SignalChange::Annotated(survives),
    )
}

/// Whether the tombstone of every edge that a cascade retires has room after the stored edge.
pub fn cascade_has_room(mirror: &Mirror, deleted_note_id: &str) -> (yes: bool)
    ensures
        yes == cascade_fits(*mirror, deleted_note_id@),
{
    let retired = list_margins_to(&mirror.links, deleted_note_id);
    let ghost all = refs_view(retired@);
    let mut i: usize = 0;
    while i < retired.len()
        invariant
            i <= retired@.len(),
            all == refs_view(retired@),
            all == margins_to(mirror.edges(), deleted_note_id@),
            forall|j: int| 0 <= j < i ==> (#[trigger] all[j]).updated_at < i64::MAX,
        decreases retired.len() - i,
    {
        assert(all[i as int] == retired@[i as int]@);
        if retired[i].updated_at == i64::MAX {
            return false;
        }
        i = i + 1;
    }
    true
}

/// Whether every counted row that is written has room after the stored one.
pub fn recounts_have_room(mirror: &Mirror, plan: &CascadePlan, scores: &Vec<Score>) -> (yes: bool)
    requires
        scores@.len() == plan.recounts@.len(),
    ensures
        yes == recounts_fit(*mirror, drafts_view(plan.recounts@), scores@),
{
    let ghost all = drafts_view(plan.recounts@);
    let mut i: usize = 0;
    while i < plan.recounts.len()
        invariant
            i <= plan.recounts@.len(),
            scores@.len() == plan.recounts@.len(),
            all == drafts_view(plan.recounts@),
            forall|j: int|
                0 <= j < i && scored(#[trigger] all[j], scores@[j]) is Some ==> signal_stamp(
                    *mirror,
                    all[j].note_id,
                ) < i64::MAX,
        decreases plan.recounts.len() - i,
    {
        let draft = &plan.recounts[i];
        assert(all[i as int] == draft@);
        if stage_signal_write(draft, scores[i]).is_some() && stored_stamp(
            mirror,
            draft.note_id.as_str(),
        ) == i64::MAX {
            return false;
        }
        i = i + 1;
    }
    true
}

fn stored_stamp(mirror: &Mirror, note_id: &str) -> (stamp: i64)
    ensures
        stamp == signal_stamp(*mirror, note_id@),
{
    read_int(mirror.get_row(Table::NoteSignals, note_id), "updated_at", 0)
}

/// Works out what deleting a note does to the margin edges that lead to it.
pub fn stage_annotation_cascade_on_delete(mirror: &Mirror, deleted_note_id: &str, now: i64) -> (plan: CascadePlan)
    requires
        cascade_fits(*mirror, deleted_note_id@),
    ensures
        writes_view(plan.edges@) == link_tombstones(
            margins_to(mirror.edges(), deleted_note_id@),
            now,
        ),
        drafts_view(plan.recounts@) == recounts(
            *mirror,
            deleted_note_id@,
            margins_to(mirror.edges(), deleted_note_id@),
            margins_to(mirror.edges(), deleted_note_id@),
            now,
        ),
{
    let retired = list_margins_to(&mirror.links, deleted_note_id);
    let ghost all = refs_view(retired@);
    let mut edges: Vec<Write> = Vec::new();
    let mut drafts: Vec<SignalDraft> = Vec::new();
    let mut i: usize = 0;
    assert(writes_view(edges@) =~= link_tombstones(all.take(0), now));
    assert(drafts_view(drafts@) =~= Seq::empty());
    while i < retired.len()
        invariant
            i <= retired@.len(),
            all == refs_view(retired@),
            all == margins_to(mirror.edges(), deleted_note_id@),
            cascade_fits(*mirror, deleted_note_id@),
            writes_view(edges@) == link_tombstones(all.take(i as int), now),
            drafts_view(drafts@) == recounts(
                *mirror,
                deleted_note_id@,
                all,
                all.take(i as int),
                now,
            ),
        decreases retired.len() - i,
    {
        let edge = retired[i];
        let ghost before = writes_view(edges@);
        proof {
            assert(all[i as int] == edge@);
            assert(all.take(i + 1).drop_last() =~= all.take(i as int));
            assert(all.take(i + 1).last() == edge@);
        }
        push_write(
            &mut edges,
            "note_links",
            edge.id.as_str(),
            build_link_tombstone(edge, later_stamp(now, edge.updated_at)),
        );
        assert(writes_view(edges@) =~= link_tombstones(all.take(i + 1), now));
        let parent = edge.from_note_id.as_str();
        if !from_listed(&retired, i, parent) && is_recounted(
            mirror,
            deleted_note_id,
            &retired,
            parent,
        ) {
            let ghost done = drafts_view(drafts@);
            let draft = build_recount(mirror, &retired, parent, now);
            drafts.push(draft);
            assert(drafts_view(drafts@) =~= done.push(draft@));
        }
        i = i + 1;
    }
    assert(all.take(all.len() as int) =~= all);
    CascadePlan { edges, recounts: drafts }
}

/// The writes of counted rows, scored and stamped; a row that says nothing new is not written.
pub open spec fn scored_writes(
    mirror: Mirror,
    drafts: Seq<DraftV>,
    scores: Seq<Score>,
    now: i64,
) -> Seq<WriteV>
    decreases drafts.len(),
{
    if drafts.len() == 0 {
        Seq::empty()
    } else {
        let before = scored_writes(mirror, drafts.drop_last(), scores, now);
        match scored(stamped(mirror, drafts.last(), now), scores[drafts.len() - 1]) {
            Some(row) => before.push(write_to("note_signals"@, drafts.last().note_id, row)),
            None => before,
        }
    }
}

proof fn lemma_restamped(
    note_id: Seq<char>,
    state: SignalState,
    importance: u64,
    created_at: i64,
    updated_at: i64,
    stamp: i64,
)
    ensures
        signal_row(note_id, state, importance, created_at, updated_at, false).insert(
            "updated_at"@,
            int_json(stamp),
        ) == signal_row(note_id, state, importance, created_at, stamp, false),
{
    reveal_strlit("updated_at");
    reveal_strlit("deleted");
    assert("updated_at"@.len() == 10 && "deleted"@.len() == 7);
    assert(signal_row(note_id, state, importance, created_at, updated_at, false).insert(
        "updated_at"@,
        int_json(stamp),
    ) =~= signal_row(note_id, state, importance, created_at, stamp, false));
}

/// Finishes a cascade: the edge tombstones, then the scored signal rows.
pub fn finish_cascade(mirror: &Mirror, plan: CascadePlan, scores: &Vec<Score>, now: i64) -> (writes: Vec<
    Write,
>)
    requires
        scores@.len() == plan.recounts@.len(),
        recounts_fit(*mirror, drafts_view(plan.recounts@), scores@),
    ensures
        writes_view(writes@) == writes_view(plan.edges@) + scored_writes(
            *mirror,
            drafts_view(plan.recounts@),
            scores@,
            now,
        ),
{
    let drafts = plan.recounts;
    let ghost start = writes_view(plan.edges@);
    let ghost all = drafts_view(drafts@);
    let mut writes = plan.edges;
    let mut i: usize = 0;
    assert(writes_view(writes@) =~= start + scored_writes(*mirror, all.take(0), scores@, now));
    while i < drafts.len()
        invariant
            i <= drafts@.len(),
            scores@.len() == drafts@.len(),
            all == drafts_view(drafts@),
            recounts_fit(*mirror, all, scores@),
            writes_view(writes@) == start + scored_writes(
                *mirror,
                all.take(i as int),
                scores@,
                now,
            ),
        decreases drafts.len() - i,
    {
        proof {
            assert(all.take(i + 1).drop_last() =~= all.take(i as int));
            assert(all.take(i + 1).last() == drafts@[i as int]@);
            assert(all[i as int] == drafts@[i as int]@);
        }
        let ghost done = scored_writes(*mirror, all.take(i as int), scores@, now);
        let draft = &drafts[i];
        if let Some(written) = stage_signal_write(draft, scores[i]) {
            let id = draft.note_id.as_str();
            let stamp = later_stamp(now, stored_stamp(mirror, id));
            let mut row = written;
            row.insert("updated_at", Json::integer(stamp));
            proof {
                lemma_restamped(
                    draft@.note_id,
                    draft@.after,
                    scores@[i as int].importance,
                    draft@.created_at,
                    draft@.updated_at,
                    stamp,
                );
            }
            push_write(&mut writes, "note_signals", id, row);
            assert(writes_view(writes@) =~= start + done.push(
                write_to("note_signals"@, draft@.note_id, row@),
            ));
        }
        i = i + 1;
    }
    assert(all.take(all.len() as int) =~= all);
    writes
}

proof fn lemma_table_names()
    ensures
        "notes"@ != "note_links"@,
        "notes"@ != "note_signals"@,
        "note_links"@ != "note_signals"@,
{
    reveal_strlit("notes");
    reveal_strlit("note_links");
    reveal_strlit("note_signals");
    assert("notes"@.len() == 5 && "note_links"@.len() == 10 && "note_signals"@.len() == 12);
}

/// Whether a write of this kind is among the writes.
pub open spec fn writes_to(writes: Seq<WriteV>, table: Seq<char>, id: Seq<char>) -> bool {
    exists|i: int|
        0 <= i < writes.len() && (#[trigger] writes[i]).table == table && writes[i].record_id == id
}

/// Replacing margins never retires what it files: no edge and no note of the new margins is
/// tombstoned in the batch, and neither is the parent.
pub proof fn law_replace_never_retires_new(
    mirror: Mirror,
    parent: Seq<char>,
    children: Seq<ChildV>,
    prior: Seq<LinkV>,
    edges: Seq<LinkV>,
    now: i64,
    n: int,
)
    requires
        0 <= n < retire_edges(mirror, parent, children, prior, edges, now).writes.len(),
    ensures
        ({
            let write = retire_edges(mirror, parent, children, prior, edges, now).writes[n];
            ||| write.table == "note_links"@ && !has_child_link(children, write.record_id)
            ||| write.table == "notes"@ && !has_child_id(children, write.record_id)
                && write.record_id != parent
        }),
    decreases edges.len(),
{
    let before = retire_edges(mirror, parent, children, prior, edges.drop_last(), now);
    if n < before.writes.len() {
        law_replace_never_retires_new(
            mirror,
            parent,
            children,
            prior,
            edges.drop_last(),
            now,
            n,
        );
    }
}

/// Replacing margins retires every prior edge that is not filed anew.
pub proof fn law_replace_retires_prior_edges(
    mirror: Mirror,
    parent: Seq<char>,
    children: Seq<ChildV>,
    prior: Seq<LinkV>,
    edges: Seq<LinkV>,
    now: i64,
    n: int,
)
    requires
        0 <= n < edges.len(),
        !has_child_link(children, edges[n].id),
    ensures
        retire_edges(mirror, parent, children, prior, edges, now).writes.contains(
            link_tombstone(edges[n], now),
        ),
    decreases edges.len(),
{
    let before = retire_edges(mirror, parent, children, prior, edges.drop_last(), now);
    let after = retire_edges(mirror, parent, children, prior, edges, now);
    if n < edges.len() - 1 {
        law_replace_retires_prior_edges(
            mirror,
            parent,
            children,
            prior,
            edges.drop_last(),
            now,
            n,
        );
        let tomb = link_tombstone(edges[n], now);
        let i = choose|i: int| 0 <= i < before.writes.len() && before.writes[i] == tomb;
        assert(after.writes[i] == tomb);
    } else {
        assert(after.writes[before.writes.len() as int] == link_tombstone(edges[n], now));
    }
}

/// Replacing margins deletes a note only where it is a live margin that a retired edge led to and
/// that no other live edge touches.
pub proof fn law_replace_deletes_only_spent_margins(
    mirror: Mirror,
    parent: Seq<char>,
    children: Seq<ChildV>,
    prior: Seq<LinkV>,
    edges: Seq<LinkV>,
    now: i64,
    id: Seq<char>,
)
    ensures
        writes_to(
            retire_edges(mirror, parent, children, prior, edges, now).writes,
            "notes"@,
            id,
        ) ==> spent_margin(mirror, id, prior) && exists|e: int|
            0 <= e < edges.len() && (#[trigger] edges[e]).to == id,
    decreases edges.len(),
{
    lemma_table_names();
    let after = retire_edges(mirror, parent, children, prior, edges, now);
    if edges.len() > 0 && writes_to(after.writes, "notes"@, id) {
        let before = retire_edges(mirror, parent, children, prior, edges.drop_last(), now);
        law_replace_deletes_only_spent_margins(
            mirror,
            parent,
            children,
            prior,
            edges.drop_last(),
            now,
            id,
        );
        let i = choose|i: int|
            0 <= i < after.writes.len() && (#[trigger] after.writes[i]).table == "notes"@
                && after.writes[i].record_id == id;
        if i < before.writes.len() {
            assert(before.writes[i] == after.writes[i]);
            let e = choose|e: int|
                0 <= e < edges.drop_last().len() && (#[trigger] edges.drop_last()[e]).to == id;
            assert(edges[e].to == id);
        } else {
            assert(edges[edges.len() - 1].to == id);
        }
    }
}

/// Replacing margins deletes a note at most once.
pub proof fn law_replace_deletes_once(
    mirror: Mirror,
    parent: Seq<char>,
    children: Seq<ChildV>,
    prior: Seq<LinkV>,
    edges: Seq<LinkV>,
    now: i64,
)
    ensures
        retire_edges(mirror, parent, children, prior, edges, now).notes.no_duplicates(),
    decreases edges.len(),
{
    if edges.len() > 0 {
        law_replace_deletes_once(mirror, parent, children, prior, edges.drop_last(), now);
    }
}

/// Filing margins writes each margin's note and edge, and nothing else.
pub proof fn law_filing_writes_the_margins(
    children: Seq<ChildV>,
    parent: Seq<char>,
    book: Option<Seq<char>>,
    seals: Seq<SealV>,
    now: i64,
    n: int,
)
    requires
        0 <= n < children.len(),
    ensures
        file_margins(children, parent, book, seals, now).len() == 2 * children.len(),
        file_margins(children, parent, book, seals, now)[2 * n] == write_to(
            "notes"@,
            children[n].id,
            margin_note_row(children[n], book, seals[n], (now + n) as i64),
        ),
        file_margins(children, parent, book, seals, now)[2 * n + 1] == write_to(
            "note_links"@,
            children[n].link_id,
            link_row(
                children[n].link_id,
                parent,
                children[n].id,
                "handwritten_annotation"@,
                (now + n) as i64,
                (now + n) as i64,
                false,
            ),
        ),
    decreases children.len(),
{
    lemma_filing_len(children.drop_last(), parent, book, seals, now);
    let before = file_margins(children.drop_last(), parent, book, seals, now);
    let all = file_margins(children, parent, book, seals, now);
    if n < children.len() - 1 {
        law_filing_writes_the_margins(children.drop_last(), parent, book, seals, now, n);
        assert(all[2 * n] == before[2 * n]);
        assert(all[2 * n + 1] == before[2 * n + 1]);
    }
}

proof fn lemma_filing_len(
    children: Seq<ChildV>,
    parent: Seq<char>,
    book: Option<Seq<char>>,
    seals: Seq<SealV>,
    now: i64,
)
    ensures
        file_margins(children, parent, book, seals, now).len() == 2 * children.len(),
    decreases children.len(),
{
    if children.len() > 0 {
        lemma_filing_len(children.drop_last(), parent, book, seals, now);
    }
}

/// The columns of the notes table.
pub open spec fn note_column_names() -> Set<Seq<char>> {
    Set::empty().insert("id"@).insert("book_id"@).insert("text"@).insert("content_tag"@).insert(
        "tags"@,
    ).insert("source"@).insert("page"@).insert("chapter"@).insert("image_path"@).insert(
        "ink_crop_path"@,
    ).insert("source_id"@).insert("source_meta"@).insert("created_at"@).insert("updated_at"@).insert(
        "deleted"@,
    )
}

/// The columns of the edges table.
pub open spec fn link_column_names() -> Set<Seq<char>> {
    Set::empty().insert("id"@).insert("from_note_id"@).insert("to_note_id"@).insert(
        "relation_type"@,
    ).insert("created_at"@).insert("updated_at"@).insert("deleted"@)
}

/// A filed margin writes every column of its note and of its edge, and an edge's tombstone writes
/// every column too: nothing of a reused row survives and nothing is left to a default.
pub proof fn law_margin_rows_are_complete(
    child: ChildV,
    book: Option<Seq<char>>,
    seal: SealV,
    created: i64,
    parent: Seq<char>,
    link: LinkV,
    stamp: i64,
)
    ensures
        margin_note_row(child, book, seal, created).dom() == note_column_names(),
        file_margin(child, parent, book, seal, created)[1].row.dom() == link_column_names(),
        link_tombstone(link, stamp).row.dom() == link_column_names(),
{
    assert(margin_note_row(child, book, seal, created).dom() =~= note_column_names());
    assert(file_margin(child, parent, book, seal, created)[1].row.dom() =~= link_column_names());
    assert(link_tombstone(link, stamp).row.dom() =~= link_column_names());
}

/// After a replacement the parent's margin edges are those of the new margins: an edge of the
/// parent that is not filed anew is tombstoned in the batch and not written otherwise.
pub proof fn law_replace_converges(
    mirror: Mirror,
    parent: Seq<char>,
    book: Option<Seq<char>>,
    children: Seq<ChildV>,
    seals: Seq<SealV>,
    now: i64,
    signal: Option<RowV>,
    n: int,
)
    requires
        children.len() > 0,
        0 <= n < margins_of(mirror.edges(), parent).len(),
        !has_child_link(children, margins_of(mirror.edges(), parent)[n].id),
    ensures
        ({
            let edge = margins_of(mirror.edges(), parent)[n];
            let batch = replace_batch(mirror, parent, book, children, seals, now, signal);
            &&& batch.contains(link_tombstone(edge, now))
            &&& !writes_to(file_margins(children, parent, book, seals, now), "note_links"@, edge.id)
        }),
{
    lemma_table_names();
    let prior = margins_of(mirror.edges(), parent);
    let edge = prior[n];
    let filed = file_margins(children, parent, book, seals, now);
    let retired = retire_edges(mirror, parent, children, prior, prior, now).writes;
    law_replace_retires_prior_edges(mirror, parent, children, prior, prior, now, n);
    let tomb = link_tombstone(edge, now);
    let k = choose|k: int| 0 <= k < retired.len() && retired[k] == tomb;
    let batch = replace_batch(mirror, parent, book, children, seals, now, signal);
    assert((filed + retired)[filed.len() + k] == tomb);
    assert(batch[filed.len() + k] == tomb);
    lemma_filing_len(children, parent, book, seals, now);
    assert forall|i: int| 0 <= i < filed.len() implies !((#[trigger] filed[i]).table
        == "note_links"@ && filed[i].record_id == edge.id) by {
        let c = i / 2;
        law_filing_writes_the_margins(children, parent, book, seals, now, c);
        assert(i == 2 * c || i == 2 * c + 1);
        assert(children[c].link_id != edge.id);
    }
}

/// Deleting a note stamps each edge tombstone after the edge that it retires.
pub proof fn law_cascade_tombstones_win(links: Seq<LinkV>, now: i64, n: int)
    requires
        0 <= n < links.len(),
        links[n].updated_at < i64::MAX,
    ensures
        crate::json::row_i64(link_tombstones(links, now)[n].row, "updated_at"@) matches Some(stamp)
            && stamp > links[n].updated_at && stamp >= now,
{
    reveal_strlit("updated_at");
    reveal_strlit("deleted");
    assert("updated_at"@.len() == 10 && "deleted"@.len() == 7);
}

/// Deleting a note counts again only live parents, and stamps each after its stored row where there
/// is a later stamp.
pub proof fn law_cascade_counts_live_parents(
    mirror: Mirror,
    deleted: Seq<char>,
    retired: Seq<LinkV>,
    edges: Seq<LinkV>,
    now: i64,
    n: int,
)
    requires
        0 <= n < recounts(mirror, deleted, retired, edges, now).len(),
    ensures
        ({
            let draft = recounts(mirror, deleted, retired, edges, now)[n];
            &&& live_row(mirror.row_of(Table::Notes, draft.note_id))
            &&& draft.note_id != deleted
            &&& leads_from(edges, draft.note_id)
            &&& signal_stamp(mirror, draft.note_id) < i64::MAX ==> stamped(
                mirror,
                draft,
                now,
            ).updated_at > signal_stamp(mirror, draft.note_id)
            &&& draft.after.has_annotation == margin_survives(
                mirror.edges(),
                draft.note_id,
                retired,
            )
        }),
    decreases edges.len(),
{
    let before = recounts(mirror, deleted, retired, edges.drop_last(), now);
    if n < before.len() {
        law_cascade_counts_live_parents(mirror, deleted, retired, edges.drop_last(), now, n);
        let draft = before[n];
        let i = choose|i: int|
            0 <= i < edges.drop_last().len() && (#[trigger] edges.drop_last()[i]).from
                == draft.note_id;
        assert(edges[i].from == draft.note_id);
    } else {
        assert(edges[edges.len() - 1].from == edges.last().from);
    }
}

proof fn lemma_recounts_from(
    mirror: Mirror,
    deleted: Seq<char>,
    retired: Seq<LinkV>,
    edges: Seq<LinkV>,
    now: i64,
    n: int,
)
    requires
        0 <= n < recounts(mirror, deleted, retired, edges, now).len(),
    ensures
        leads_from(edges, recounts(mirror, deleted, retired, edges, now)[n].note_id),
    decreases edges.len(),
{
    let before = recounts(mirror, deleted, retired, edges.drop_last(), now);
    if n < before.len() {
        lemma_recounts_from(mirror, deleted, retired, edges.drop_last(), now, n);
        let i = choose|i: int|
            0 <= i < edges.drop_last().len() && (#[trigger] edges.drop_last()[i]).from
                == before[n].note_id;
        assert(edges[i].from == before[n].note_id);
    } else {
        assert(edges[edges.len() - 1].from == edges.last().from);
    }
}

/// Deleting a note counts each parent again at most once.
pub proof fn law_cascade_counts_once(
    mirror: Mirror,
    deleted: Seq<char>,
    retired: Seq<LinkV>,
    edges: Seq<LinkV>,
    now: i64,
    n: int,
    m: int,
)
    requires
        0 <= n < m < recounts(mirror, deleted, retired, edges, now).len(),
    ensures
        recounts(mirror, deleted, retired, edges, now)[n].note_id != recounts(
            mirror,
            deleted,
            retired,
            edges,
            now,
        )[m].note_id,
    decreases edges.len(),
{
    let before = recounts(mirror, deleted, retired, edges.drop_last(), now);
    if m < before.len() {
        law_cascade_counts_once(mirror, deleted, retired, edges.drop_last(), now, n, m);
    } else {
        lemma_recounts_from(mirror, deleted, retired, edges.drop_last(), now, n);
    }
}

/// An accepted replacement has no margin that takes another row over: reused ids belong to margins of this parent that nothing else touches.
pub proof fn law_accepted_margins_take_over_nothing(
    mirror: Mirror,
    parent: Seq<char>,
    children: Seq<ChildV>,
    n: int,
)
    requires
        refusal(mirror, parent, children) is None,
        0 <= n < children.len(),
    ensures
        children[n].id != parent,
        children[n].link_id != parent,
        children[n].id != children[n].link_id,
        !uses_id(children.take(n), children[n].id),
        !uses_id(children.take(n), children[n].link_id),
        link_reusable(mirror.row_of(Table::NoteLinks, children[n].link_id), parent),
        !has_foreign_edge(mirror.edges(), parent, children[n].id),
        mirror.row_of(Table::Notes, children[n].id) is Some ==> opt_row_text(
            mirror.row_of(Table::Notes, children[n].id),
            "source"@,
        ) == Some("handwritten"@),
    decreases children.len(),
{
    if n < children.len() - 1 {
        law_accepted_margins_take_over_nothing(mirror, parent, children.drop_last(), n);
        assert(children.drop_last().take(n) =~= children.take(n));
    } else {
        assert(children.drop_last() =~= children.take(n));
    }
}

/// Blank margins alone, or none at all, are accepted and write nothing: the margins that are there
/// stay as they are, and so does the signal row.
pub proof fn law_blank_margins_are_a_no_op(
    mirror: Mirror,
    parent: Seq<char>,
    children: Seq<ChildV>,
    book: Option<Seq<char>>,
    seals: Seq<SealV>,
    now: i64,
    signal: Option<RowV>,
)
    requires
        forall|i: int| 0 <= i < children.len() ==> trimmed((#[trigger] children[i]).text).len() == 0,
    ensures
        kept_children(children).len() == 0,
        replace_refusal(mirror, parent, children) is None,
        replace_batch(mirror, parent, book, kept_children(children), seals, now, signal)
            == Seq::<WriteV>::empty(),
    decreases children.len(),
{
    if children.len() > 0 {
        assert(trimmed(children[children.len() - 1].text).len() == 0);
        assert forall|i: int| 0 <= i < children.drop_last().len() implies trimmed(
            (#[trigger] children.drop_last()[i]).text,
        ).len() == 0 by {
            assert(children.drop_last()[i] == children[i]);
        }
        law_blank_margins_are_a_no_op(
            mirror,
            parent,
            children.drop_last(),
            book,
            seals,
            now,
            signal,
        );
    }
}

} // verus!
