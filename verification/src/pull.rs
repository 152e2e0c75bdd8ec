//! Incremental pull of one table: which fetched rows win over the local ones, which queued edits
//! are thereby superseded, and how far the cursor moves.
//!
//! The pull is a machine. The caller performs the action that each step returns and hands back
//! what came of it.

use crate::json::{
    json_view, lemma_items_view, row_bool, row_i64, row_text, Fields, Json, JsonV, RowV,
};
use crate::mirror::row_view;
use crate::tables::{key_column, known_table, table_name, Table};
use crate::text::joined;
use crate::types::SupersededEdit;
use vstd::prelude::*;
use vstd::string::StringExecFns;

verus! {

/// How many rows a page holds.
pub const PULL_PAGE_LIMIT: usize = 1000;

/// What a pull of several tables did.
#[derive(Debug)]
pub struct PullResult {
    pub pulled: usize,
    pub merged: usize,
    pub skipped_tombstones: usize,
    /// Local edits dropped because a newer remote row won.
    pub superseded: Vec<SupersededEdit>,
    /// Tables whose fetch or merge failed.
    pub failed_tables: Vec<String>,
}

/// What a pull of one table did.
#[derive(Debug)]
pub struct TableStats {
    pub pulled: usize,
    pub merged: usize,
    pub skipped_tombstones: usize,
    pub superseded: Vec<SupersededEdit>,
}

/// A superseded edit by its contents.
pub struct SupersededV {
    pub table: Seq<char>,
    pub record_id: Seq<char>,
    pub discarded_updated_at: i64,
    pub winning_updated_at: i64,
}

impl View for SupersededEdit {
    type V = SupersededV;

    open spec fn view(&self) -> SupersededV {
        SupersededV {
            table: self.table@,
            record_id: self.record_id@,
            discarded_updated_at: self.discarded_updated_at,
            winning_updated_at: self.winning_updated_at,
        }
    }
}

pub open spec fn superseded_view(edits: Seq<SupersededEdit>) -> Seq<SupersededV> {
    edits.map_values(|e: SupersededEdit| e@)
}

pub struct StatsV {
    pub pulled: int,
    pub merged: int,
    pub skipped_tombstones: int,
    pub superseded: Seq<SupersededV>,
}

impl View for TableStats {
    type V = StatsV;

    open spec fn view(&self) -> StatsV {
        StatsV {
            pulled: self.pulled as int,
            merged: self.merged as int,
            skipped_tombstones: self.skipped_tombstones as int,
            superseded: superseded_view(self.superseded@),
        }
    }
}

/// The pull of one table.
#[derive(Debug)]
pub struct TablePull {
    pub table: Table,
    pub page_size: usize,
    /// The highest server sequence number merged so far.
    pub cursor: i64,
    pub page: Vec<Json>,
    /// The row of the page that is worked on.
    pub at: usize,
    /// The highest server sequence number seen in the page.
    pub page_max: i64,
    pub stats: TableStats,
}

/// What the caller does next.
#[derive(Debug)]
pub enum PullAction {
    /// Fetch the rows after this sequence number, in its order, one page of them.
    FetchPage(i64),
    /// Read the local row with this key.
    ReadLocal(String),
    /// Replace the local row by the row of the page, and drop the queued edits that it beats.
    Apply,
    /// Store the cursor.
    SetCursor(i64),
    /// The table is pulled.
    Done,
    /// The table cannot be pulled.
    Fail(String),
}

pub enum ActionV {
    FetchPage(i64),
    ReadLocal(Seq<char>),
    Apply,
    SetCursor(i64),
    Done,
    Fail(Seq<char>),
}

impl View for PullAction {
    type V = ActionV;

    open spec fn view(&self) -> ActionV {
        match *self {
            PullAction::FetchPage(seq) => ActionV::FetchPage(seq),
            PullAction::ReadLocal(id) => ActionV::ReadLocal(id@),
            PullAction::Apply => ActionV::Apply,
            PullAction::SetCursor(seq) => ActionV::SetCursor(seq),
            PullAction::Done => ActionV::Done,
            PullAction::Fail(message) => ActionV::Fail(message@),
        }
    }
}

/// The pull of one table by its contents.
pub struct PullV {
    pub table: Table,
    pub page_size: int,
    pub cursor: i64,
    pub page: Seq<JsonV>,
    pub at: int,
    pub page_max: i64,
    pub stats: StatsV,
}

impl View for TablePull {
    type V = PullV;

    open spec fn view(&self) -> PullV {
        PullV {
            table: self.table,
            page_size: self.page_size as int,
            cursor: self.cursor,
            page: crate::json::items_view(self.page@),
            at: self.at as int,
            page_max: self.page_max,
            stats: self.stats@,
        }
    }
}

/// The key of a fetched row; a row that is no object or has no key is passed over.
pub open spec fn fetched_key(table: Table, row: JsonV) -> Option<Seq<char>> {
    match row {
        JsonV::Obj(fields) => row_text(fields, key_column(table)),
        _ => None,
    }
}

/// The server sequence number of a fetched row.
pub open spec fn fetched_seq(row: JsonV) -> Option<i64> {
    match row {
        JsonV::Obj(fields) => row_i64(fields, "change_seq"@),
        _ => None,
    }
}

/// A row's time; one without counts as the oldest.
pub open spec fn row_time(row: RowV) -> i64 {
    match row_i64(row, "updated_at"@) {
        Some(n) => n,
        None => 0,
    }
}

/// Whether a fetched row wins over the local one: it is newer, or there is none and the row is no
/// delete.
pub open spec fn wins(row: RowV, local: Option<RowV>) -> bool {
    match local {
        Some(l) => row_time(row) > row_time(l),
        None => row_bool(row, "deleted"@) != Some(true),
    }
}

pub open spec fn max_i64(a: i64, b: i64) -> i64 {
    if a >= b {
        a
    } else {
        b
    }
}

/// The message for a full page that does not move the cursor.
pub open spec fn stuck(table: Table) -> Seq<char> {
    "pull "@ + table_name(table)
        + ": a full page did not advance the change_seq cursor — every row is missing change_seq (server must stamp it NOT NULL, migration 0051)"@
}

/// The pull of a table before its first page.
pub open spec fn begun(table: Table, page_size: int, cursor: i64) -> PullV {
    PullV {
        table,
        page_size,
        cursor,
        page: Seq::empty(),
        at: 0,
        page_max: cursor,
        stats: StatsV {
            pulled: 0,
            merged: 0,
            skipped_tombstones: 0,
            superseded: Seq::empty(),
        },
    }
}

/// Works forward to the next row of the page that can be merged; past the last, the cursor moves.
pub open spec fn seek(p: PullV) -> (PullV, ActionV)
    decreases p.page.len() - p.at,
{
    if p.at >= p.page.len() {
        if p.page_max > p.cursor {
            (p, ActionV::SetCursor(p.page_max))
        } else if p.page.len() < p.page_size {
            (p, ActionV::Done)
        } else {
            (p, ActionV::Fail(stuck(p.table)))
        }
    } else {
        match fetched_key(p.table, p.page[p.at]) {
            None => seek(PullV { at: p.at + 1, ..p }),
            Some(key) => (
                PullV {
                    page_max: match fetched_seq(p.page[p.at]) {
                        Some(seq) => max_i64(p.page_max, seq),
                        None => p.page_max,
                    },
                    stats: StatsV { pulled: p.stats.pulled + 1, ..p.stats },
                    ..p
                },
                ActionV::ReadLocal(key),
            ),
        }
    }
}

/// A fetched page is worked on from its first row.
pub open spec fn with_page(p: PullV, rows: Seq<JsonV>) -> (PullV, ActionV) {
    seek(PullV { page: rows, at: 0, page_max: p.cursor, ..p })
}

/// Given the local row, the fetched row is applied, passed over as a delete of a row that was
/// never here, or loses.
pub open spec fn with_local(p: PullV, local: Option<RowV>) -> (PullV, ActionV) {
    let row = p.page[p.at]->Obj_0;
    if wins(row, local) {
        (p, ActionV::Apply)
    } else if local is None {
        seek(
            PullV {
                at: p.at + 1,
                stats: StatsV { skipped_tombstones: p.stats.skipped_tombstones + 1, ..p.stats },
                ..p
            },
        )
    } else {
        seek(PullV { at: p.at + 1, ..p })
    }
}

/// The newest of some stamps.
pub open spec fn newest(stamps: Seq<i64>) -> Option<i64>
    decreases stamps.len(),
{
    if stamps.len() == 0 {
        None
    } else {
        match newest(stamps.drop_last()) {
            Some(n) => Some(max_i64(n, stamps.last())),
            None => Some(stamps.last()),
        }
    }
}

/// The state behind a row that was applied: the newest of the queued edits that were dropped is
/// reported.
pub open spec fn after_apply(p: PullV, dropped: Seq<i64>) -> PullV {
    let superseded = match newest(dropped) {
        Some(stamp) => p.stats.superseded.push(
            SupersededV {
                table: table_name(p.table),
                record_id: fetched_key(p.table, p.page[p.at])->Some_0,
                discarded_updated_at: stamp,
                winning_updated_at: row_time(p.page[p.at]->Obj_0),
            },
        ),
        None => p.stats.superseded,
    };
    PullV {
        at: p.at + 1,
        stats: StatsV { merged: p.stats.merged + 1, superseded, ..p.stats },
        ..p
    }
}

/// After a row was applied the next is sought.
pub open spec fn with_applied(p: PullV, dropped: Seq<i64>) -> (PullV, ActionV) {
    seek(after_apply(p, dropped))
}

/// After the cursor was stored: a short page was the last, a full one is followed by another.
pub open spec fn with_cursor(p: PullV) -> (PullV, ActionV) {
    let moved = PullV { cursor: p.page_max, ..p };
    if p.page.len() < p.page_size {
        (moved, ActionV::Done)
    } else {
        (moved, ActionV::FetchPage(p.page_max))
    }
}

/// The table to pull, or what is said of a name that is no synced table's.
pub fn pull_target(name: &str) -> (result: Result<Table, String>)
    ensures
        match result {
            Ok(table) => table_name(table) == name@,
            Err(message) => !known_table(name@) && message@ == "unknown synced table: "@ + name@,
        },
{
    match Table::named(name) {
        Some(table) => Ok(table),
        None => Err(joined("unknown synced table: ", name)),
    }
}

impl TablePull {
    /// The counts fit, with room for the rows of the page that are still to come.
    pub open spec fn wf(&self) -> bool {
        &&& self.at <= self.page.len()
        &&& self.stats.pulled + (self.page@.len() - self.at) <= usize::MAX
        &&& self.stats.merged + (self.page@.len() - self.at) <= usize::MAX
        &&& self.stats.skipped_tombstones + (self.page@.len() - self.at) <= usize::MAX
    }

    /// Whether a row of the page is being worked on.
    pub open spec fn on_row(&self) -> bool {
        &&& self.at < self.page.len()
        &&& fetched_key(self.table, json_view(self.page@[self.at as int])) is Some
        &&& self.stats.pulled + (self.page@.len() - self.at - 1) <= usize::MAX
        &&& self.stats.merged + (self.page@.len() - self.at) <= usize::MAX
        &&& self.stats.skipped_tombstones + (self.page@.len() - self.at) <= usize::MAX
    }

    /// Begins a pull; without a stored cursor from the start.
    pub fn start(table: Table, cursor: Option<i64>, page_size: usize) -> (pull: TablePull)
        ensures
            pull.wf(),
            pull@ == begun(
                table,
                page_size as int,
                match cursor {
                    Some(n) => n,
                    None => 0,
                },
            ),
    {
        let from = match cursor {
            Some(n) => n,
            None => 0,
        };
        let pull = TablePull {
            table,
            page_size,
            cursor: from,
            page: Vec::new(),
            at: 0,
            page_max: from,
            stats: TableStats {
                pulled: 0,
                merged: 0,
                skipped_tombstones: 0,
                superseded: Vec::new(),
            },
        };
        proof {
            lemma_items_view(pull.page@);
            assert(crate::json::items_view(pull.page@) =~= Seq::empty());
            assert(superseded_view(pull.stats.superseded@) =~= Seq::empty());
        }
        pull
    }

    fn seek_row(&mut self) -> (action: PullAction)
        requires
            old(self).wf(),
        ensures
            (final(self)@, action@) == seek(old(self)@),
            !(action is Apply),
            action is ReadLocal ==> final(self).on_row(),
            !(action is ReadLocal) ==> final(self).wf(),
    {
        let ghost all = crate::json::items_view(self.page@);
        proof {
            lemma_items_view(self.page@);
        }
        while self.at < self.page.len()
            invariant
                self.wf(),
                self.page == old(self).page,
                self.table == old(self).table,
                all == crate::json::items_view(self.page@),
                all.len() == self.page@.len(),
                forall|j: int| 0 <= j < all.len() ==> #[trigger] all[j] == json_view(self.page@[j]),
                seek(self@) == seek(old(self)@),
            decreases self.page.len() - self.at,
        {
            assert(all[self.at as int] == json_view(self.page@[self.at as int]));
            let found = match self.page[self.at].as_object() {
                Some(fields) => match fields.get_text(self.table.key_column()) {
                    Some(key) => Some((key.clone(), fields.get_i64("change_seq"))),
                    None => None,
                },
                None => None,
            };
            match found {
                Some((key, seq)) => {
                    self.stats.pulled = self.stats.pulled + 1;
                    if let Some(n) = seq {
                        if n > self.page_max {
                            self.page_max = n;
                        }
                    }
                    return PullAction::ReadLocal(key);
                },
                None => {},
            }
            self.at = self.at + 1;
        }
        if self.page_max > self.cursor {
            PullAction::SetCursor(self.page_max)
        } else if self.page.len() < self.page_size {
            PullAction::Done
        } else {
            let mut message = joined("pull ", self.table.name());
            message.append(
                ": a full page did not advance the change_seq cursor — every row is missing change_seq (server must stamp it NOT NULL, migration 0051)",
            );
            PullAction::Fail(message)
        }
    }

    /// Takes a fetched page.
    pub fn take_page(&mut self, rows: Vec<Json>) -> (action: PullAction)
        requires
            old(self).stats.pulled + rows@.len() <= usize::MAX,
            old(self).stats.merged + rows@.len() <= usize::MAX,
            old(self).stats.skipped_tombstones + rows@.len() <= usize::MAX,
        ensures
            (final(self)@, action@) == with_page(old(self)@, crate::json::items_view(rows@)),
            action is ReadLocal ==> final(self).on_row(),
            !(action is ReadLocal) ==> final(self).wf(),
    {
        self.page = rows;
        self.at = 0;
        self.page_max = self.cursor;
        self.seek_row()
    }

    /// Takes the local row that was asked for.
    pub fn take_local(&mut self, local: Option<&Fields>) -> (action: PullAction)
        requires
            old(self).on_row(),
        ensures
            (final(self)@, action@) == with_local(old(self)@, row_view(local)),
            action is ReadLocal || action is Apply ==> final(self).on_row(),
            !(action is ReadLocal || action is Apply) ==> final(self).wf(),
    {
        proof {
            lemma_items_view(self.page@);
        }
        let (time, deleted) = match self.page[self.at].as_object() {
            Some(row) => (time_of(row), row.is_deleted()),
            None => (0, false),
        };
        match local {
            Some(l) => {
                if time > time_of(l) {
                    return PullAction::Apply;
                }
            },
            None => {
                if !deleted {
                    return PullAction::Apply;
                }
                self.stats.skipped_tombstones = self.stats.skipped_tombstones + 1;
            },
        }
        self.at = self.at + 1;
        self.seek_row()
    }

    /// The row to apply.
    pub fn row(&self) -> (row: Option<&Fields>)
        requires
            self.on_row(),
        ensures
            row matches Some(r) && json_view(self.page@[self.at as int]) == JsonV::Obj(r@),
    {
        self.page[self.at].as_object()
    }

    /// The time of the row to apply.
    pub fn row_updated_at(&self) -> (time: i64)
        requires
            self.on_row(),
        ensures
            time == row_time(json_view(self.page@[self.at as int])->Obj_0),
    {
        match self.page[self.at].as_object() {
            Some(row) => time_of(row),
            None => 0,
        }
    }

    /// Takes the stamps of the queued edits that were dropped when the row was applied.
    pub fn take_applied(&mut self, dropped: &Vec<i64>) -> (action: PullAction)
        requires
            old(self).on_row(),
        ensures
            (final(self)@, action@) == with_applied(old(self)@, dropped@),
            action is ReadLocal ==> final(self).on_row(),
            !(action is ReadLocal) ==> final(self).wf(),
    {
        proof {
            lemma_items_view(self.page@);
        }
        let ghost before = self@;
        if let Some(stamp) = newest_stamp(dropped) {
            let (id, time) = match self.page[self.at].as_object() {
                Some(row) => (
                    match row.get_text(self.table.key_column()) {
                        Some(key) => key.clone(),
                        None => String::new(),
                    },
                    time_of(row),
                ),
                None => (String::new(), 0),
            };
            let edit = SupersededEdit {
                table: self.table.name().to_owned(),
                record_id: id,
                discarded_updated_at: stamp,
                winning_updated_at: time,
            };
            self.stats.superseded.push(edit);
            assert(superseded_view(self.stats.superseded@) =~= before.stats.superseded.push(edit@));
        }
        self.stats.merged = self.stats.merged + 1;
        self.at = self.at + 1;
        self.seek_row()
    }

    /// Goes on after the cursor was stored.
    pub fn take_cursor_set(&mut self) -> (action: PullAction)
        requires
            old(self).wf(),
        ensures
            (final(self)@, action@) == with_cursor(old(self)@),
            final(self).wf(),
            final(self).stats == old(self).stats,
    {
        self.cursor = self.page_max;
        if self.page.len() < self.page_size {
            PullAction::Done
        } else {
            PullAction::FetchPage(self.page_max)
        }
    }
}

fn time_of(row: &Fields) -> (time: i64)
    ensures
        time == row_time(row@),
{
    match row.get_i64("updated_at") {
        Some(n) => n,
        None => 0,
    }
}

fn newest_stamp(stamps: &Vec<i64>) -> (stamp: Option<i64>)
    ensures
        stamp == newest(stamps@),
{
    let mut best: Option<i64> = None;
    let mut i: usize = 0;
    assert(stamps@.take(0) =~= Seq::empty());
    while i < stamps.len()
        invariant
            i <= stamps@.len(),
            best == newest(stamps@.take(i as int)),
        decreases stamps.len() - i,
    {
        assert(stamps@.take(i + 1).drop_last() =~= stamps@.take(i as int));
        let stamp = stamps[i];
        best = match best {
            Some(n) => if n >= stamp {
                Some(n)
            } else {
                Some(stamp)
            },
            None => Some(stamp),
        };
        i = i + 1;
    }
    assert(stamps@.take(stamps@.len() as int) =~= stamps@);
    best
}

impl Default for PullResult {
    /// Nothing pulled yet.
    fn default() -> (result: PullResult)
        ensures
            result.pulled == 0,
            result.merged == 0,
            result.skipped_tombstones == 0,
            result.superseded@ == Seq::<SupersededEdit>::empty(),
            result.failed_tables@ == Seq::<String>::empty(),
    {
        PullResult {
            pulled: 0,
            merged: 0,
            skipped_tombstones: 0,
            superseded: Vec::new(),
            failed_tables: Vec::new(),
        }
    }
}

impl PullResult {
    /// Adds what the pull of a table did.
    pub fn add_table(&mut self, stats: TableStats)
        requires
            old(self).pulled + stats.pulled <= usize::MAX,
            old(self).merged + stats.merged <= usize::MAX,
            old(self).skipped_tombstones + stats.skipped_tombstones <= usize::MAX,
        ensures
            final(self).pulled == old(self).pulled + stats.pulled,
            final(self).merged == old(self).merged + stats.merged,
            final(self).skipped_tombstones == old(self).skipped_tombstones
                + stats.skipped_tombstones,
            final(self).superseded@ == old(self).superseded@ + stats.superseded@,
            final(self).failed_tables == old(self).failed_tables,
    {
        let mut superseded = stats.superseded;
        self.pulled = self.pulled + stats.pulled;
        self.merged = self.merged + stats.merged;
        self.skipped_tombstones = self.skipped_tombstones + stats.skipped_tombstones;
        self.superseded.append(&mut superseded);
    }

    /// Notes that the pull of a table failed, by the name it was asked for under; the others go on.
    pub fn add_failure(&mut self, table: &str)
        ensures
            final(self).pulled == old(self).pulled,
            final(self).merged == old(self).merged,
            final(self).skipped_tombstones == old(self).skipped_tombstones,
            final(self).superseded == old(self).superseded,
            crate::json::texts_view(final(self).failed_tables@) == crate::json::texts_view(
                old(self).failed_tables@,
            ).push(table@),
    {
        let ghost before = crate::json::texts_view(self.failed_tables@);
        let name = table.to_owned();
        self.failed_tables.push(name);
        assert(crate::json::texts_view(self.failed_tables@) =~= before.push(name@));
    }
}

/// A tie keeps the local row.
pub proof fn law_tie_keeps_local(row: RowV, local: RowV)
    requires
        row_time(row) == row_time(local),
    ensures
        !wins(row, Some(local)),
{
}

/// A delete of a row that was never here is never applied.
pub proof fn law_delete_is_not_resurrected(row: RowV)
    requires
        row_bool(row, "deleted"@) == Some(true),
    ensures
        !wins(row, None),
{
}

/// What becomes of a local row when fetched rows are merged into it in order.
pub open spec fn merged_rows(local: Option<RowV>, rows: Seq<RowV>) -> Option<RowV>
    decreases rows.len(),
{
    if rows.len() == 0 {
        local
    } else {
        let before = merged_rows(local, rows.drop_last());
        if wins(rows.last(), before) {
            Some(rows.last())
        } else {
            before
        }
    }
}

/// Merging the same row again changes nothing.
pub proof fn law_merge_is_idempotent(local: Option<RowV>, row: RowV)
    ensures
        merged_rows(merged_rows(local, seq![row]), seq![row]) == merged_rows(local, seq![row]),
{
    assert(seq![row].drop_last() =~= Seq::empty());
    assert(merged_rows(local, Seq::empty()) == local);
    let once = merged_rows(local, seq![row]);
    assert(merged_rows(once, Seq::empty()) == once);
}

/// Two rows of different times come out the same in either order, where a local row is there.
pub proof fn law_merge_order_does_not_matter(local: RowV, a: RowV, b: RowV)
    requires
        row_time(a) != row_time(b),
    ensures
        merged_rows(Some(local), seq![a, b]) == merged_rows(Some(local), seq![b, a]),
{
    assert(seq![a, b].drop_last() =~= seq![a]);
    assert(seq![b, a].drop_last() =~= seq![b]);
    assert(seq![a].drop_last() =~= Seq::empty());
    assert(seq![b].drop_last() =~= Seq::empty());
    assert(merged_rows(Some(local), Seq::empty()) == Some(local));
    assert(merged_rows(Some(local), seq![a]) == if wins(a, Some(local)) {
        Some(a)
    } else {
        Some(local)
    });
    assert(merged_rows(Some(local), seq![b]) == if wins(b, Some(local)) {
        Some(b)
    } else {
        Some(local)
    });
}

/// A merge never leaves an older row than it found.
pub proof fn law_merge_never_goes_back(local: RowV, rows: Seq<RowV>)
    ensures
        merged_rows(Some(local), rows) matches Some(r) && row_time(r) >= row_time(local),
    decreases rows.len(),
{
    if rows.len() > 0 {
        law_merge_never_goes_back(local, rows.drop_last());
    }
}

/// Seeking never moves the cursor, never lowers the page's highest number, and stores a cursor
/// only where it is higher.
pub proof fn law_seek_is_monotone(p: PullV)
    requires
        p.page_max >= p.cursor,
    ensures
        seek(p).0.cursor == p.cursor,
        seek(p).0.page_max >= p.page_max,
        seek(p).0.page == p.page,
        seek(p).1 matches ActionV::SetCursor(seq) ==> seq > p.cursor && seq == seek(p).0.page_max,
        seek(p).1 matches ActionV::Fail(_) ==> p.page.len() >= p.page_size,
        !(seek(p).1 is Apply) && !(seek(p).1 is FetchPage),
    decreases p.page.len() - p.at,
{
    if p.at < p.page.len() && fetched_key(p.table, p.page[p.at]) is None {
        law_seek_is_monotone(PullV { at: p.at + 1, ..p });
    }
}

/// Every step keeps the cursor where it is or moves it forward, and a page is fetched only behind
/// a cursor that moved forward: the pull of a table ends.
pub proof fn law_cursor_only_moves_forward(
    p: PullV,
    rows: Seq<JsonV>,
    local: Option<RowV>,
    dropped: Seq<i64>,
)
    requires
        p.page_max >= p.cursor,
    ensures
        with_page(p, rows).0.cursor == p.cursor,
        with_local(p, local).0.cursor == p.cursor,
        with_applied(p, dropped).0.cursor == p.cursor,
        with_cursor(p).0.cursor >= p.cursor,
        with_cursor(p).1 matches ActionV::FetchPage(seq) ==> seq == p.page_max,
        !(with_page(p, rows).1 is FetchPage),
        !(with_local(p, local).1 is FetchPage),
        !(with_applied(p, dropped).1 is FetchPage),
        with_page(p, rows).1 matches ActionV::SetCursor(seq) ==> seq > p.cursor,
        with_local(p, local).1 matches ActionV::SetCursor(seq) ==> seq > p.cursor,
        with_applied(p, dropped).1 matches ActionV::SetCursor(seq) ==> seq > p.cursor,
{
    law_seek_is_monotone(PullV { page: rows, at: 0, page_max: p.cursor, ..p });
    law_seek_is_monotone(PullV { at: p.at + 1, ..p });
    law_seek_is_monotone(
        PullV {
            at: p.at + 1,
            stats: StatsV { skipped_tombstones: p.stats.skipped_tombstones + 1, ..p.stats },
            ..p
        },
    );
    law_seek_is_monotone(after_apply(p, dropped));
}

/// Every row of a page that has a key raises the page's highest number to at least its own, also
/// where it loses or is passed over.
pub proof fn law_every_row_counts(p: PullV)
    requires
        0 <= p.at < p.page.len(),
        fetched_key(p.table, p.page[p.at]) is Some,
    ensures
        seek(p).1 is ReadLocal,
        seek(p).0.stats.pulled == p.stats.pulled + 1,
        fetched_seq(p.page[p.at]) matches Some(seq) ==> seek(p).0.page_max >= seq,
{
}

/// The local rows of a table after the rows of a page were merged into them in order.
pub open spec fn merged_page(
    table: Table,
    locals: Map<Seq<char>, RowV>,
    page: Seq<JsonV>,
    at: int,
) -> Map<Seq<char>, RowV>
    decreases page.len() - at,
{
    if at < 0 || at >= page.len() {
        locals
    } else {
        let next = match fetched_key(table, page[at]) {
            Some(key) => if wins(page[at]->Obj_0, local_row(locals, key)) {
                locals.insert(key, page[at]->Obj_0)
            } else {
                locals
            },
            None => locals,
        };
        merged_page(table, next, page, at + 1)
    }
}

/// The local row with a key.
pub open spec fn local_row(locals: Map<Seq<char>, RowV>, key: Seq<char>) -> Option<RowV> {
    if locals.contains_key(key) {
        Some(locals[key])
    } else {
        None
    }
}

/// Performs what the machine asks of the local rows until it asks for something else. `dropped`
/// gives the stamps of the queued edits that the row at a position drops.
pub open spec fn driven(
    step: (PullV, ActionV),
    locals: Map<Seq<char>, RowV>,
    dropped: spec_fn(int) -> Seq<i64>,
) -> ((PullV, ActionV), Map<Seq<char>, RowV>)
    decreases
            step.0.page.len() - step.0.at,
            if step.1 is ReadLocal {
                1int
            } else {
                0int
            },
{
    let p = step.0;
    if p.at < 0 || p.at >= p.page.len() {
        (step, locals)
    } else {
        proof {
            lemma_seek_goes_forward(p, dropped(p.at));
        }
        match step.1 {
            ActionV::ReadLocal(key) => driven(with_local(p, local_row(locals, key)), locals, dropped),
            ActionV::Apply => driven(
                with_applied(p, dropped(p.at)),
                locals.insert(fetched_key(p.table, p.page[p.at])->Some_0, p.page[p.at]->Obj_0),
                dropped,
            ),
            _ => (step, locals),
        }
    }
}

proof fn lemma_seek(p: PullV)
    ensures
        seek(p).0.page == p.page,
        seek(p).0.table == p.table,
        seek(p).0.at >= p.at,
        seek(p).0.at <= p.page.len() || seek(p).0.at == p.at,
        !(seek(p).1 is Apply) && !(seek(p).1 is FetchPage),
        seek(p).1 matches ActionV::ReadLocal(key) ==> seek(p).0.at < p.page.len() && fetched_key(
            p.table,
            p.page[seek(p).0.at],
        ) == Some(key),
        !(seek(p).1 is ReadLocal) ==> seek(p).0.at >= p.page.len(),
    decreases p.page.len() - p.at,
{
    if p.at < p.page.len() && fetched_key(p.table, p.page[p.at]) is None {
        lemma_seek(PullV { at: p.at + 1, ..p });
    }
}

/// A step from a row either applies it or goes past it.
pub proof fn lemma_seek_goes_forward(p: PullV, dropped: Seq<i64>)
    requires
        p.at < p.page.len(),
    ensures
        forall|local: Option<RowV>|
            {
                let next = #[trigger] with_local(p, local);
                &&& next.0.page == p.page
                &&& next.1 is Apply ==> next.0 == p
                &&& !(next.1 is Apply) ==> p.at < next.0.at <= p.page.len()
            },
        p.at < with_applied(p, dropped).0.at <= p.page.len(),
        with_applied(p, dropped).0.page == p.page,
{
    assert forall|local: Option<RowV>|
        {
            let next = #[trigger] with_local(p, local);
            &&& next.0.page == p.page
            &&& next.1 is Apply ==> next.0 == p
            &&& !(next.1 is Apply) ==> p.at < next.0.at <= p.page.len()
        } by {
        lemma_seek(PullV { at: p.at + 1, ..p });
        lemma_seek(
            PullV {
                at: p.at + 1,
                stats: StatsV { skipped_tombstones: p.stats.skipped_tombstones + 1, ..p.stats },
                ..p
            },
        );
    }
    lemma_seek(after_apply(p, dropped));
}

/// Passing over rows without a key leaves the merge as it is.
proof fn lemma_seek_keeps_merge(p: PullV, locals: Map<Seq<char>, RowV>)
    requires
        0 <= p.at,
    ensures
        merged_page(p.table, locals, p.page, p.at) == merged_page(
            p.table,
            locals,
            p.page,
            seek(p).0.at,
        ),
    decreases p.page.len() - p.at,
{
    if p.at < p.page.len() && fetched_key(p.table, p.page[p.at]) is None {
        lemma_seek_keeps_merge(PullV { at: p.at + 1, ..p }, locals);
    }
}

proof fn lemma_driven(
    step: (PullV, ActionV),
    locals: Map<Seq<char>, RowV>,
    dropped: spec_fn(int) -> Seq<i64>,
)
    requires
        0 <= step.0.at,
        step.1 matches ActionV::ReadLocal(key) ==> step.0.at < step.0.page.len() && fetched_key(
            step.0.table,
            step.0.page[step.0.at],
        ) == Some(key),
        step.1 is Apply ==> {
            &&& step.0.at < step.0.page.len()
            &&& fetched_key(step.0.table, step.0.page[step.0.at]) is Some
            &&& wins(
                step.0.page[step.0.at]->Obj_0,
                local_row(locals, fetched_key(step.0.table, step.0.page[step.0.at])->Some_0),
            )
        },
        !(step.1 is ReadLocal || step.1 is Apply) ==> step.0.at >= step.0.page.len(),
    ensures
        driven(step, locals, dropped).1 == merged_page(
            step.0.table,
            locals,
            step.0.page,
            step.0.at,
        ),
        !(driven(step, locals, dropped).0.1 is ReadLocal),
        !(driven(step, locals, dropped).0.1 is Apply),
        driven(step, locals, dropped).0.0.at >= step.0.page.len(),
    decreases
            step.0.page.len() - step.0.at,
            if step.1 is ReadLocal {
                1int
            } else {
                0int
            },
{
    let p = step.0;
    if p.at < p.page.len() {
        let key = fetched_key(p.table, p.page[p.at])->Some_0;
        lemma_seek_goes_forward(p, dropped(p.at));
        if step.1 is ReadLocal {
            let local = local_row(locals, key);
            let passed = PullV { at: p.at + 1, ..p };
            let skipped = PullV {
                at: p.at + 1,
                stats: StatsV { skipped_tombstones: p.stats.skipped_tombstones + 1, ..p.stats },
                ..p
            };
            lemma_seek(passed);
            lemma_seek(skipped);
            lemma_seek_keeps_merge(passed, locals);
            lemma_seek_keeps_merge(skipped, locals);
            lemma_driven(with_local(p, local), locals, dropped);
        } else {
            let next = after_apply(p, dropped(p.at));
            let after = locals.insert(key, p.page[p.at]->Obj_0);
            lemma_seek(next);
            lemma_seek_keeps_merge(next, after);
            lemma_driven(with_applied(p, dropped(p.at)), after, dropped);
        }
    }
}

/// Run over a page to its end, the machine leaves in the local rows exactly the merge of the page:
/// each row in turn, whichever row it finds under its key by then.
pub proof fn law_page_is_merged_in_order(
    p: PullV,
    rows: Seq<JsonV>,
    locals: Map<Seq<char>, RowV>,
    dropped: spec_fn(int) -> Seq<i64>,
)
    ensures
        driven(with_page(p, rows), locals, dropped).1 == merged_page(p.table, locals, rows, 0),
        driven(with_page(p, rows), locals, dropped).0.0.at >= rows.len(),
        !(driven(with_page(p, rows), locals, dropped).0.1 is ReadLocal),
        !(driven(with_page(p, rows), locals, dropped).0.1 is Apply),
{
    let begun = PullV { page: rows, at: 0, page_max: p.cursor, ..p };
    lemma_seek(begun);
    lemma_seek_keeps_merge(begun, locals);
    lemma_driven(with_page(p, rows), locals, dropped);
}

/// A page changes no local row but those whose keys it holds.
pub proof fn law_page_touches_only_its_keys(
    table: Table,
    locals: Map<Seq<char>, RowV>,
    page: Seq<JsonV>,
    at: int,
    key: Seq<char>,
)
    requires
        forall|i: int| 0 <= i < page.len() ==> fetched_key(table, #[trigger] page[i]) != Some(key),
    ensures
        local_row(merged_page(table, locals, page, at), key) == local_row(locals, key),
    decreases page.len() - at,
{
    if 0 <= at < page.len() {
        let found = fetched_key(table, page[at]);
        let next = match found {
            Some(k) => if wins(page[at]->Obj_0, local_row(locals, k)) {
                locals.insert(k, page[at]->Obj_0)
            } else {
                locals
            },
            None => locals,
        };
        law_page_touches_only_its_keys(table, next, page, at + 1, key);
    }
}

/// Pulling a page whose rows are all merged already changes nothing.
pub proof fn law_page_merged_again(
    table: Table,
    locals: Map<Seq<char>, RowV>,
    page: Seq<JsonV>,
    at: int,
)
    requires
        forall|i: int|
            0 <= i < page.len() ==> match fetched_key(table, #[trigger] page[i]) {
                Some(key) => locals.contains_key(key) && row_time(locals[key]) >= row_time(
                    page[i]->Obj_0,
                ),
                None => true,
            },
    ensures
        merged_page(table, locals, page, at) == locals,
    decreases page.len() - at,
{
    if 0 <= at < page.len() {
        let found = fetched_key(table, page[at]);
        law_page_merged_again(table, locals, page, at + 1);
    }
}

/// Whether a fetched row is a live one with a key.
pub open spec fn live_fetched(table: Table, row: JsonV, key: Seq<char>) -> bool {
    fetched_key(table, row) == Some(key) && row_bool(row->Obj_0, "deleted"@) != Some(true)
}

/// Whether the row at a position is the first live one of its key in a page.
pub open spec fn first_live(table: Table, page: Seq<JsonV>, at: int, key: Seq<char>) -> bool {
    &&& live_fetched(table, page[at], key)
    &&& forall|i: int| 0 <= i < at ==> !live_fetched(table, #[trigger] page[i], key)
}

/// Whether no delete that is passed over, because its row is not here yet, is newer than all that
/// the page then makes of that row.
pub open spec fn settles(table: Table, locals: Map<Seq<char>, RowV>, page: Seq<JsonV>) -> bool {
    forall|i: int, m: int, key: Seq<char>|
        #![trigger fetched_key(table, page[i]), first_live(table, page, m, key)]
        0 <= i < m < page.len() && fetched_key(table, page[i]) == Some(key) && !locals.contains_key(
            key,
        ) && first_live(table, page, m, key) ==> exists|j: int|
            m <= j < page.len() && fetched_key(table, #[trigger] page[j]) == Some(key) && row_time(
                page[j]->Obj_0,
            ) >= row_time(page[i]->Obj_0)
}

/// Whether a live row of a key stands before a position of a page.
spec fn seen_live(table: Table, page: Seq<JsonV>, at: int, key: Seq<char>) -> bool {
    exists|m: int| 0 <= m < at && live_fetched(table, #[trigger] page[m], key)
}

/// What holds of the local rows when a page is merged up to a position: which rows are there, and
/// that none is older than any row of the page that met it.
spec fn merged_so_far(
    table: Table,
    locals: Map<Seq<char>, RowV>,
    page: Seq<JsonV>,
    at: int,
    now: Map<Seq<char>, RowV>,
) -> bool {
    &&& forall|key: Seq<char>| #[trigger]
        now.contains_key(key) <==> locals.contains_key(key) || seen_live(table, page, at, key)
    &&& forall|i: int, key: Seq<char>|
        #![trigger fetched_key(table, page[i]), now[key]]
        0 <= i < at && fetched_key(table, page[i]) == Some(key) && (locals.contains_key(key)
            || seen_live(table, page, i + 1, key)) ==> row_time(page[i]->Obj_0) <= row_time(now[key])
}

proof fn lemma_merged_so_far(
    table: Table,
    locals: Map<Seq<char>, RowV>,
    page: Seq<JsonV>,
    at: int,
    now: Map<Seq<char>, RowV>,
)
    requires
        0 <= at <= page.len(),
        merged_so_far(table, locals, page, at, now),
    ensures
        merged_so_far(
            table,
            locals,
            page,
            page.len() as int,
            merged_page(table, now, page, at),
        ),
    decreases page.len() - at,
{
    if at < page.len() {
        let found = fetched_key(table, page[at]);
        let next = match found {
            Some(k) => if wins(page[at]->Obj_0, local_row(now, k)) {
                now.insert(k, page[at]->Obj_0)
            } else {
                now
            },
            None => now,
        };
        assert forall|key: Seq<char>| #[trigger]
            next.contains_key(key) <==> locals.contains_key(key) || seen_live(
                table,
                page,
                at + 1,
                key,
            ) by {
            assert(now.contains_key(key) <==> locals.contains_key(key) || seen_live(
                table,
                page,
                at,
                key,
            ));
            if seen_live(table, page, at, key) {
                let m = choose|m: int| 0 <= m < at && live_fetched(table, #[trigger] page[m], key);
                assert(live_fetched(table, page[m], key));
            }
            if live_fetched(table, page[at], key) {
                assert(seen_live(table, page, at + 1, key));
            } else if seen_live(table, page, at + 1, key) {
                let m = choose|m: int|
                    0 <= m < at + 1 && live_fetched(table, #[trigger] page[m], key);
                assert(m < at);
                assert(seen_live(table, page, at, key));
            }
        }
        assert forall|i: int, key: Seq<char>|
            #![trigger fetched_key(table, page[i]), next[key]]
            0 <= i < at + 1 && fetched_key(table, page[i]) == Some(key) && (locals.contains_key(key)
                || seen_live(table, page, i + 1, key)) implies row_time(page[i]->Obj_0) <= row_time(
            next[key],
        ) by {
            assert(next.contains_key(key) <==> locals.contains_key(key) || seen_live(
                table,
                page,
                at + 1,
                key,
            ));
            assert(now.contains_key(key) <==> locals.contains_key(key) || seen_live(
                table,
                page,
                at,
                key,
            ));
            if i == at {
                if !now.contains_key(key) {
                    let m = choose|m: int|
                        0 <= m < i + 1 && live_fetched(table, #[trigger] page[m], key);
                    if m < at {
                        assert(seen_live(table, page, at, key));
                    }
                    assert(m == at);
                }
            } else {
                if seen_live(table, page, i + 1, key) {
                    let m = choose|m: int|
                        0 <= m < i + 1 && live_fetched(table, #[trigger] page[m], key);
                    assert(m < at && live_fetched(table, page[m], key));
                    assert(seen_live(table, page, at, key));
                }
                assert(now.contains_key(key));
                assert(row_time(page[i]->Obj_0) <= row_time(now[key]));
            }
        }
        lemma_merged_so_far(table, locals, page, at + 1, next);
    }
}

/// Whether no row of a page would be applied to these local rows.
spec fn all_met(table: Table, locals: Map<Seq<char>, RowV>, page: Seq<JsonV>) -> bool {
    forall|i: int|
        0 <= i < page.len() ==> match fetched_key(table, #[trigger] page[i]) {
            Some(key) => !wins(page[i]->Obj_0, local_row(locals, key)),
            None => true,
        }
}

proof fn lemma_first_live(table: Table, page: Seq<JsonV>, m: int, key: Seq<char>) -> (first: int)
    requires
        0 <= m < page.len(),
        live_fetched(table, page[m], key),
    ensures
        0 <= first <= m,
        first_live(table, page, first, key),
    decreases m,
{
    if exists|i: int| 0 <= i < m && live_fetched(table, #[trigger] page[i], key) {
        let i = choose|i: int| 0 <= i < m && live_fetched(table, #[trigger] page[i], key);
        lemma_first_live(table, page, i, key)
    } else {
        m
    }
}

proof fn lemma_page_settled(table: Table, locals: Map<Seq<char>, RowV>, page: Seq<JsonV>)
    requires
        settles(table, locals, page),
    ensures
        all_met(table, merged_page(table, locals, page, 0), page),
{
    let merged = merged_page(table, locals, page, 0);
    let n = page.len() as int;
    assert(merged_so_far(table, locals, page, 0, locals));
    lemma_merged_so_far(table, locals, page, 0, locals);
    assert forall|i: int| 0 <= i < n implies match fetched_key(table, #[trigger] page[i]) {
        Some(key) => !wins(page[i]->Obj_0, local_row(merged, key)),
        None => true,
    } by {
        if let Some(key) = fetched_key(table, page[i]) {
            assert(merged.contains_key(key) <==> locals.contains_key(key) || seen_live(
                table,
                page,
                n,
                key,
            ));
            if live_fetched(table, page[i], key) {
                assert(seen_live(table, page, n, key));
                assert(seen_live(table, page, i + 1, key));
            }
            if merged.contains_key(key) && !locals.contains_key(key) && !seen_live(
                table,
                page,
                i + 1,
                key,
            ) {
                let m = choose|m: int| 0 <= m < n && live_fetched(table, #[trigger] page[m], key);
                let first = lemma_first_live(table, page, m, key);
                if first <= i {
                    assert(seen_live(table, page, i + 1, key));
                }
                let j = choose|j: int|
                    first <= j < page.len() && fetched_key(table, #[trigger] page[j]) == Some(key)
                        && row_time(page[j]->Obj_0) >= row_time(page[i]->Obj_0);
                assert(live_fetched(table, page[first], key));
                assert(seen_live(table, page, j + 1, key));
            }
        }
    }
}

/// How many rows of a page from a position on have a key.
pub open spec fn keyed_rows(table: Table, page: Seq<JsonV>, at: int) -> int
    decreases page.len() - at,
{
    if at < 0 || at >= page.len() {
        0
    } else {
        keyed_rows(table, page, at + 1) + if fetched_key(table, page[at]) is Some {
            1int
        } else {
            0int
        }
    }
}

/// The highest number of the rows with a key from a position of a page on, and of one more.
pub open spec fn highest_seq(table: Table, page: Seq<JsonV>, at: int, seq: i64) -> i64
    decreases page.len() - at,
{
    if at < 0 || at >= page.len() {
        seq
    } else {
        highest_seq(
            table,
            page,
            at + 1,
            match (fetched_key(table, page[at]), fetched_seq(page[at])) {
                (Some(_), Some(n)) => max_i64(seq, n),
                _ => seq,
            },
        )
    }
}

proof fn lemma_highest_settles(table: Table, page: Seq<JsonV>, at: int, seq: i64, top: i64)
    requires
        top >= highest_seq(table, page, at, seq),
    ensures
        highest_seq(table, page, at, top) == top,
        highest_seq(table, page, at, seq) >= seq,
    decreases page.len() - at,
{
    if 0 <= at < page.len() {
        let next = match (fetched_key(table, page[at]), fetched_seq(page[at])) {
            (Some(_), Some(n)) => max_i64(seq, n),
            _ => seq,
        };
        lemma_highest_settles(table, page, at + 1, next, top);
    }
}

proof fn lemma_seek_counts(p: PullV)
    requires
        0 <= p.at,
    ensures
        ({
            let next = seek(p);
            let rest = if next.1 is ReadLocal {
                next.0.at + 1
            } else {
                next.0.at
            };
            &&& next.0.stats.pulled + keyed_rows(p.table, p.page, rest) == p.stats.pulled
                + keyed_rows(p.table, p.page, p.at)
            &&& highest_seq(p.table, p.page, rest, next.0.page_max) == highest_seq(
                p.table,
                p.page,
                p.at,
                p.page_max,
            )
            &&& next.0.stats.merged == p.stats.merged
            &&& next.0.stats.superseded == p.stats.superseded
            &&& next.0.cursor == p.cursor
            &&& next.0.page_size == p.page_size
        }),
    decreases p.page.len() - p.at,
{
    if p.at < p.page.len() && fetched_key(p.table, p.page[p.at]) is None {
        lemma_seek_counts(PullV { at: p.at + 1, ..p });
    }
}

/// What the machine counts over a page, whatever it finds here; and where it would apply nothing,
/// it applies nothing.
proof fn lemma_driven_counts(
    step: (PullV, ActionV),
    locals: Map<Seq<char>, RowV>,
    dropped: spec_fn(int) -> Seq<i64>,
)
    requires
        0 <= step.0.at,
        step.1 matches ActionV::ReadLocal(key) ==> step.0.at < step.0.page.len() && fetched_key(
            step.0.table,
            step.0.page[step.0.at],
        ) == Some(key),
        step.1 is Apply ==> step.0.at < step.0.page.len(),
        !(step.1 is ReadLocal || step.1 is Apply) ==> step.0.at >= step.0.page.len() && step
            == seek(step.0),
    ensures
        ({
            let end = driven(step, locals, dropped).0;
            let rest = if step.1 is ReadLocal || step.1 is Apply {
                step.0.at + 1
            } else {
                step.0.at
            };
            &&& end == seek(end.0)
            &&& end.0.at >= end.0.page.len()
            &&& end.0.page == step.0.page
            &&& end.0.stats.pulled == step.0.stats.pulled + keyed_rows(
                step.0.table,
                step.0.page,
                rest,
            )
            &&& end.0.page_max == highest_seq(step.0.table, step.0.page, rest, step.0.page_max)
            &&& end.0.cursor == step.0.cursor
            &&& end.0.page_size == step.0.page_size
            &&& all_met(step.0.table, locals, step.0.page) && !(step.1 is Apply) ==> {
                &&& driven(step, locals, dropped).1 == locals
                &&& end.0.stats.merged == step.0.stats.merged
                &&& end.0.stats.superseded == step.0.stats.superseded
            }
        }),
    decreases
            step.0.page.len() - step.0.at,
            if step.1 is ReadLocal {
                1int
            } else {
                0int
            },
{
    let p = step.0;
    if p.at < p.page.len() {
        lemma_seek_goes_forward(p, dropped(p.at));
        if let ActionV::ReadLocal(key) = step.1 {
            let passed = PullV { at: p.at + 1, ..p };
            let skipped = PullV {
                at: p.at + 1,
                stats: StatsV { skipped_tombstones: p.stats.skipped_tombstones + 1, ..p.stats },
                ..p
            };
            lemma_seek(passed);
            lemma_seek(skipped);
            lemma_seek_counts(passed);
            lemma_seek_counts(skipped);
            lemma_seek_stays(passed);
            lemma_seek_stays(skipped);
            lemma_driven_counts(with_local(p, local_row(locals, key)), locals, dropped);
        } else {
            let next = after_apply(p, dropped(p.at));
            let after = locals.insert(fetched_key(p.table, p.page[p.at])->Some_0, p.page[p.at]->Obj_0);
            lemma_seek(next);
            lemma_seek_counts(next);
            lemma_seek_stays(next);
            lemma_driven_counts(with_applied(p, dropped(p.at)), after, dropped);
        }
    }
}

/// At the end of a page, seeking again finds the same.
proof fn lemma_seek_stays(p: PullV)
    ensures
        !(seek(p).1 is ReadLocal) ==> seek(seek(p).0) == seek(p),
    decreases p.page.len() - p.at,
{
    if p.at < p.page.len() && fetched_key(p.table, p.page[p.at]) is None {
        lemma_seek_stays(PullV { at: p.at + 1, ..p });
    }
}

/// The cursor that a pull leaves behind a page.
pub open spec fn stored_cursor(step: (PullV, ActionV)) -> i64 {
    match step.1 {
        ActionV::SetCursor(seq) => seq,
        _ => step.0.cursor,
    }
}

/// Pulling the same short page again applies nothing, so that the local rows and the queued edits
/// stay as they are, reports no superseded edit, counts the same rows, and leaves the cursor where
/// it is. A page is left out in which a delete that is passed over is newer than all that the page
/// makes of its row afterwards: the second pull applies that delete.
pub proof fn law_pulled_again(
    table: Table,
    page_size: int,
    cursor: i64,
    page: Seq<JsonV>,
    locals: Map<Seq<char>, RowV>,
    dropped: spec_fn(int) -> Seq<i64>,
    dropped_again: spec_fn(int) -> Seq<i64>,
)
    requires
        page.len() < page_size,
        settles(table, locals, page),
    ensures
        ({
            let first = driven(with_page(begun(table, page_size, cursor), page), locals, dropped);
            let reached = stored_cursor(first.0);
            let again = driven(
                with_page(begun(table, page_size, reached), page),
                first.1,
                dropped_again,
            );
            &&& again.1 == first.1
            &&& again.0.1 is Done
            &&& again.0.0.cursor == reached
            &&& again.0.0.stats.pulled == first.0.0.stats.pulled
            &&& again.0.0.stats.merged == 0
            &&& again.0.0.stats.superseded == Seq::<SupersededV>::empty()
        }),
{
    let start = begun(table, page_size, cursor);
    let first = driven(with_page(start, page), locals, dropped);
    law_page_is_merged_in_order(start, page, locals, dropped);
    lemma_page_settled(table, locals, page);
    lemma_run_counts(start, page, locals, dropped);
    let reached = stored_cursor(first.0);
    let top = highest_seq(table, page, 0, cursor);
    lemma_highest_settles(table, page, 0, cursor, top);
    assert(reached == top);
    let next = begun(table, page_size, reached);
    lemma_run_counts(next, page, first.1, dropped_again);
    lemma_highest_settles(table, page, 0, cursor, reached);
}

proof fn lemma_run_counts(
    p: PullV,
    page: Seq<JsonV>,
    locals: Map<Seq<char>, RowV>,
    dropped: spec_fn(int) -> Seq<i64>,
)
    ensures
        ({
            let run = driven(with_page(p, page), locals, dropped);
            let end = run.0;
            &&& end == seek(end.0)
            &&& end.0.at >= end.0.page.len()
            &&& end.0.page == page
            &&& end.0.stats.pulled == p.stats.pulled + keyed_rows(p.table, page, 0)
            &&& end.0.page_max == highest_seq(p.table, page, 0, p.cursor)
            &&& end.0.cursor == p.cursor
            &&& end.0.page_size == p.page_size
            &&& all_met(p.table, locals, page) ==> {
                &&& run.1 == locals
                &&& end.0.stats.merged == p.stats.merged
                &&& end.0.stats.superseded == p.stats.superseded
            }
        }),
{
    let first = PullV { page, at: 0, page_max: p.cursor, ..p };
    lemma_seek(first);
    lemma_seek_counts(first);
    lemma_seek_stays(first);
    lemma_driven_counts(with_page(p, page), locals, dropped);
}

/// The newest of some stamps is one of them and none is newer.
pub proof fn law_newest(stamps: Seq<i64>, i: int)
    requires
        0 <= i < stamps.len(),
    ensures
        newest(stamps) matches Some(n) && n >= stamps[i] && stamps.contains(n),
    decreases stamps.len(),
{
    if stamps.len() == 1 {
        assert(stamps.drop_last() =~= Seq::empty());
        assert(stamps[0] == stamps.last());
    } else {
        let before = stamps.drop_last();
        law_newest(before, if i < before.len() { i } else { 0 });
        let n = newest(before)->Some_0;
        let k = choose|k: int| 0 <= k < before.len() && before[k] == n;
        assert(stamps[k] == n);
        assert(stamps[stamps.len() - 1] == stamps.last());
    }
}

} // verus!
