//! The outbox: queued writes to one record collapse into one upsert.
//!
//! Within a record the later write wins each column, a delete is sticky, and a queued note that
//! points at a merged-away book is repointed at the book that survived.

use crate::json::{field, reversed, row_text, Fields, Json, JsonV, Number, RowV};
use crate::text::{joined, lemma_text_order, same_text, text_before, text_less};
use vstd::prelude::*;
use vstd::string::StringExecFns;

verus! {

/// One queued write as the outbox holds it.
#[derive(Debug)]
pub struct OutboxItem {
    pub id: i64,
    pub table_name: String,
    /// The row's key; without one the payload's `id` column stands in.
    pub record_id: Option<String>,
    pub payload: Json,
    pub created_at: i64,
}

/// The writes to one record, collapsed: the queue ids that were absorbed and the merged row.
#[derive(Debug)]
pub struct Collapsed {
    pub table: String,
    pub ids: Vec<i64>,
    pub payload: Fields,
}

/// Which book survived when another was merged away.
#[derive(Debug)]
pub struct IdRemap {
    pub entries: Vec<(String, String)>,
}

pub open spec fn remap_view(entries: Seq<(String, String)>) -> Map<Seq<char>, Seq<char>>
    decreases entries.len(),
{
    if entries.len() == 0 {
        Map::empty()
    } else {
        remap_view(entries.drop_last()).insert(entries.last().0@, entries.last().1@)
    }
}

impl View for IdRemap {
    type V = Map<Seq<char>, Seq<char>>;

    open spec fn view(&self) -> Map<Seq<char>, Seq<char>> {
        remap_view(self.entries@)
    }
}

proof fn lemma_remap_found(entries: Seq<(String, String)>, id: Seq<char>, i: int)
    requires
        0 <= i < entries.len(),
        entries[i].0@ == id,
        forall|j: int| i < j < entries.len() ==> (#[trigger] entries[j]).0@ != id,
    ensures
        remap_view(entries).contains_key(id),
        remap_view(entries)[id] == entries[i].1@,
    decreases entries.len(),
{
    if i < entries.len() - 1 {
        assert forall|j: int| i < j < entries.drop_last().len() implies (
        #[trigger] entries.drop_last()[j]).0@ != id by {
            assert(entries.drop_last()[j] == entries[j]);
        }
        lemma_remap_found(entries.drop_last(), id, i);
    }
}

proof fn lemma_remap_absent(entries: Seq<(String, String)>, id: Seq<char>)
    requires
        forall|j: int| 0 <= j < entries.len() ==> (#[trigger] entries[j]).0@ != id,
    ensures
        !remap_view(entries).contains_key(id),
    decreases entries.len(),
{
    if entries.len() > 0 {
        assert forall|j: int| 0 <= j < entries.drop_last().len() implies (
        #[trigger] entries.drop_last()[j]).0@ != id by {
            assert(entries.drop_last()[j] == entries[j]);
        }
        lemma_remap_absent(entries.drop_last(), id);
    }
}

impl IdRemap {
    /// No book was merged.
    pub fn new() -> (remap: IdRemap)
        ensures
            remap@ == Map::<Seq<char>, Seq<char>>::empty(),
    {
        IdRemap { entries: Vec::new() }
    }

    /// Records that `from` was merged into `to`.
    pub fn insert(&mut self, from: String, to: String)
        ensures
            final(self)@ == old(self)@.insert(from@, to@),
    {
        let ghost before = self.entries@;
        self.entries.push((from, to));
        assert(self.entries@.drop_last() =~= before);
    }

    /// The book that `id` was merged into.
    pub fn get(&self, id: &str) -> (to: Option<&String>)
        ensures
            match to {
                Some(t) => self@.contains_key(id@) && self@[id@] == t@,
                None => !self@.contains_key(id@),
            },
    {
        let mut i: usize = self.entries.len();
        while i > 0
            invariant
                i <= self.entries@.len(),
                forall|j: int|
                    i <= j < self.entries@.len() ==> (#[trigger] self.entries@[j]).0@ != id@,
            decreases i,
        {
            i = i - 1;
            if same_text(self.entries[i].0.as_str(), id) {
                proof {
                    lemma_remap_found(self.entries@, id@, i as int);
                }
                return Some(&self.entries[i].1);
            }
        }
        proof {
            lemma_remap_absent(self.entries@, id@);
        }
        None
    }
}

/// The most merges that a chain is followed through.
pub const MAX_HOPS: u32 = 20;

/// Follows merges from `id`, at most `hops` of them.
pub open spec fn walk(id: Seq<char>, remap: Map<Seq<char>, Seq<char>>, hops: nat) -> Seq<char>
    decreases hops,
{
    if hops == 0 || !remap.contains_key(id) || remap[id] == id {
        id
    } else {
        walk(remap[id], remap, (hops - 1) as nat)
    }
}

/// Whether no merge leads away from `id`.
pub open spec fn settled(id: Seq<char>, remap: Map<Seq<char>, Seq<char>>) -> bool {
    !remap.contains_key(id) || remap[id] == id
}

/// Follows merged-away books to the one that survived. The number of hops is capped, so a cycle
/// ends too.
pub fn resolve_book_id(book_id: &str, remap: &IdRemap) -> (resolved: String)
    ensures
        resolved@ == walk(book_id@, remap@, MAX_HOPS as nat),
{
    let mut id: String = book_id.to_owned();
    let mut hops: u32 = 0;
    while hops < MAX_HOPS
        invariant
            hops <= MAX_HOPS,
            walk(book_id@, remap@, MAX_HOPS as nat) == walk(id@, remap@, (MAX_HOPS - hops) as nat),
        decreases MAX_HOPS - hops,
    {
        match remap.get(id.as_str()) {
            Some(next) => {
                if same_text(next.as_str(), id.as_str()) {
                    return id;
                }
                id = next.clone();
            },
            None => {
                return id;
            },
        }
        hops = hops + 1;
    }
    id
}

/// Whether a `deleted` column counts as set: `true`, a number other than zero, or a text other
/// than the empty one, `"false"` and `"0"`.
pub open spec fn truthy_value(value: JsonV) -> bool {
    match value {
        JsonV::Bool(b) => b,
        JsonV::Num(Number::PosInt(n)) => n != 0,
        JsonV::Num(Number::NegInt(n)) => n != 0,
        JsonV::Num(Number::Float(bits)) => !crate::json::zero_bits(bits),
        JsonV::Str(s) => s.len() != 0 && s != "false"@ && s != "0"@,
        _ => false,
    }
}

/// Whether a row is marked deleted.
pub open spec fn truthy_deleted(row: RowV) -> bool {
    match field(row, "deleted"@) {
        Some(value) => truthy_value(value),
        None => false,
    }
}

fn truthy(value: Option<&Json>) -> (yes: bool)
    ensures
        yes == (match value {
            Some(v) => truthy_value(v@),
            None => false,
        }),
{
    match value {
        Some(Json::Bool(b)) => *b,
        Some(Json::Num(Number::PosInt(n))) => *n != 0,
        Some(Json::Num(Number::NegInt(n))) => *n != 0,
        Some(Json::Num(Number::Float(bits))) => !crate::json::is_zero_bits(*bits),
        Some(Json::Str(s)) => !s.as_str().is_empty() && !same_text(s.as_str(), "false")
            && !same_text(s.as_str(), "0"),
        _ => false,
    }
}

/// A queued write by its contents.
pub struct ItemV {
    pub id: i64,
    pub table: Seq<char>,
    pub record: Option<Seq<char>>,
    pub payload: JsonV,
    pub created_at: i64,
}

/// A collapsed record by its contents.
pub struct CollapsedV {
    pub table: Seq<char>,
    pub ids: Seq<i64>,
    pub payload: RowV,
}

impl View for OutboxItem {
    type V = ItemV;

    open spec fn view(&self) -> ItemV {
        ItemV {
            id: self.id,
            table: self.table_name@,
            record: match self.record_id {
                Some(s) => Some(s@),
                None => None,
            },
            payload: self.payload@,
            created_at: self.created_at,
        }
    }
}

impl View for Collapsed {
    type V = CollapsedV;

    open spec fn view(&self) -> CollapsedV {
        CollapsedV { table: self.table@, ids: self.ids@, payload: self.payload@ }
    }
}

/// The columns that a queued write carries; anything but an object carries none.
pub open spec fn item_fields(item: ItemV) -> RowV {
    match item.payload {
        JsonV::Obj(fields) => fields,
        _ => Map::empty(),
    }
}

/// The key of the record that a queued write is for.
pub open spec fn record_of(item: ItemV) -> Seq<char> {
    match item.record {
        Some(id) => id,
        None => match row_text(item_fields(item), "id"@) {
            Some(id) => id,
            None => Seq::empty(),
        },
    }
}

/// What two writes must share to collapse: the table and the record, joined by a colon.
pub open spec fn group_key(item: ItemV) -> Seq<char> {
    item.table + ":"@ + record_of(item)
}

/// Puts a write behind all that are not later.
pub open spec fn insert_by_time(sorted: Seq<ItemV>, item: ItemV) -> Seq<ItemV>
    decreases sorted.len(),
{
    if sorted.len() > 0 && sorted.last().created_at > item.created_at {
        insert_by_time(sorted.drop_last(), item).push(sorted.last())
    } else {
        sorted.push(item)
    }
}

/// The writes by time; those of one time keep their order.
pub open spec fn by_time(items: Seq<ItemV>) -> Seq<ItemV>
    decreases items.len(),
{
    if items.len() == 0 {
        Seq::empty()
    } else {
        insert_by_time(by_time(items.drop_last()), items.last())
    }
}

/// The writes with this key, in order.
pub open spec fn with_key(items: Seq<ItemV>, key: Seq<char>) -> Seq<ItemV>
    decreases items.len(),
{
    if items.len() == 0 {
        Seq::empty()
    } else if group_key(items.last()) == key {
        with_key(items.drop_last(), key).push(items.last())
    } else {
        with_key(items.drop_last(), key)
    }
}

/// One write merged over a row: its columns win, and a delete on either side stays.
pub open spec fn merged_over(row: RowV, fields: RowV) -> RowV {
    let merged = row.union_prefer_right(fields);
    if truthy_deleted(row) || truthy_deleted(fields) {
        merged.insert("deleted"@, JsonV::Bool(true))
    } else {
        merged
    }
}

/// Writes merged in order.
pub open spec fn merged_all(items: Seq<ItemV>) -> RowV
    decreases items.len(),
{
    if items.len() == 0 {
        Map::empty()
    } else {
        let before = merged_all(items.drop_last());
        match items.last().payload {
            JsonV::Obj(fields) => merged_over(before, fields),
            _ => before,
        }
    }
}

/// A note row with its book repointed at the book that survived.
pub open spec fn repointed(
    table: Seq<char>,
    row: RowV,
    remap: Map<Seq<char>, Seq<char>>,
) -> RowV {
    match row_text(row, "book_id"@) {
        Some(book) => if table == "notes"@ {
            row.insert("book_id"@, JsonV::Str(walk(book, remap, MAX_HOPS as nat)))
        } else {
            row
        },
        None => row,
    }
}

/// The collapse of the writes of one record, before books are repointed.
pub open spec fn group_of(items: Seq<ItemV>) -> CollapsedV {
    CollapsedV {
        table: items[0].table,
        ids: items.map_values(|i: ItemV| i.id),
        payload: merged_all(items),
    }
}

/// The collapse of the writes of one record.
pub open spec fn collapsed_group(
    items: Seq<ItemV>,
    remap: Map<Seq<char>, Seq<char>>,
) -> CollapsedV {
    let group = group_of(items);
    CollapsedV {
        table: group.table,
        ids: group.ids,
        payload: repointed(group.table, group.payload, remap),
    }
}

pub open spec fn items_of(items: Seq<OutboxItem>) -> Seq<ItemV> {
    items.map_values(|i: OutboxItem| i@)
}

/// Whether `groups` is what `items` collapse to: one group for each key that occurs, in the byte
/// order of `keys`, each the collapse of all writes with its key.
pub open spec fn collapses_to(
    items: Seq<ItemV>,
    remap: Map<Seq<char>, Seq<char>>,
    keys: Seq<Seq<char>>,
    groups: Seq<CollapsedV>,
) -> bool {
    let sorted = by_time(items);
    &&& keys.len() == groups.len()
    &&& forall|i: int, j: int| 0 <= i < j < keys.len() ==> text_less(keys[i], keys[j])
    &&& forall|i: int|
        0 <= i < keys.len() ==> with_key(sorted, #[trigger] keys[i]).len() > 0 && groups[i]
            == collapsed_group(with_key(sorted, keys[i]), remap)
    &&& forall|n: int| 0 <= n < items.len() ==> keys.contains(group_key(#[trigger] items[n]))
}

pub open spec fn collapsed_view(groups: Seq<Collapsed>) -> Seq<CollapsedV> {
    groups.map_values(|g: Collapsed| g@)
}

pub open spec fn refs_view(items: Seq<&OutboxItem>) -> Seq<ItemV> {
    items.map_values(|i: &OutboxItem| i@)
}

proof fn lemma_insert_by_time(sorted: Seq<ItemV>, item: ItemV, at: int)
    requires
        0 <= at <= sorted.len(),
        at == 0 || sorted[at - 1].created_at <= item.created_at,
        forall|j: int| at <= j < sorted.len() ==> (#[trigger] sorted[j]).created_at > item.created_at,
    ensures
        insert_by_time(sorted, item) == sorted.insert(at, item),
    decreases sorted.len(),
{
    if at < sorted.len() {
        assert(sorted[sorted.len() - 1].created_at > item.created_at);
        assert forall|j: int| at <= j < sorted.drop_last().len() implies (
        #[trigger] sorted.drop_last()[j]).created_at > item.created_at by {
            assert(sorted.drop_last()[j] == sorted[j]);
        }
        lemma_insert_by_time(sorted.drop_last(), item, at);
        assert(sorted.drop_last().insert(at, item).push(sorted.last()) =~= sorted.insert(at, item));
    } else {
        assert(sorted.insert(at, item) =~= sorted.push(item));
    }
}

fn sort_by_time<'a>(items: &'a Vec<OutboxItem>) -> (sorted: Vec<&'a OutboxItem>)
    ensures
        refs_view(sorted@) == by_time(items_of(items@)),
{
    let mut sorted: Vec<&'a OutboxItem> = Vec::new();
    let mut n: usize = 0;
    assert(refs_view(sorted@) =~= by_time(items_of(items@).take(0)));
    while n < items.len()
        invariant
            n <= items@.len(),
            refs_view(sorted@) == by_time(items_of(items@).take(n as int)),
        decreases items.len() - n,
    {
        let item = &items[n];
        let mut at: usize = sorted.len();
        while at > 0 && sorted[at - 1].created_at > item.created_at
            invariant
                at <= sorted@.len(),
                forall|j: int|
                    at <= j < sorted@.len() ==> (#[trigger] sorted@[j]).created_at
                        > item.created_at,
            decreases at,
        {
            at = at - 1;
        }
        let ghost before = refs_view(sorted@);
        proof {
            assert forall|j: int| at <= j < before.len() implies (#[trigger] before[j]).created_at
                > item@.created_at by {
                assert(before[j] == sorted@[j]@);
            }
            lemma_insert_by_time(before, item@, at as int);
            let all = items_of(items@);
            assert(all.take(n + 1).drop_last() =~= all.take(n as int));
            assert(all.take(n + 1).last() == item@);
        }
        sorted.insert(at, item);
        assert(refs_view(sorted@) =~= before.insert(at as int, item@));
        n = n + 1;
    }
    assert(items_of(items@).take(items@.len() as int) =~= items_of(items@));
    sorted
}

fn key_text(item: &OutboxItem) -> (key: String)
    ensures
        key@ == group_key(item@),
{
    let mut key = joined(item.table_name.as_str(), ":");
    match &item.record_id {
        Some(id) => key.append(id.as_str()),
        None => {
            if let Json::Obj(fields) = &item.payload {
                match fields.get_text("id") {
                    Some(id) => key.append(id.as_str()),
                    None => {
                        assert(key@ + Seq::empty() =~= key@);
                    },
                }
            } else {
                assert(key@ + Seq::empty() =~= key@);
            }
        },
    }
    key
}

fn absorb(group: &mut Collapsed, item: &OutboxItem)
    ensures
        final(group).table == old(group).table,
        final(group).ids@ == old(group).ids@.push(item.id),
        final(group).payload@ == (match item.payload@ {
            JsonV::Obj(fields) => merged_over(old(group).payload@, fields),
            _ => old(group).payload@,
        }),
{
    group.ids.push(item.id);
    if let Json::Obj(fields) = &item.payload {
        let deleted = truthy(group.payload.get("deleted")) || truthy(fields.get("deleted"));
        group.payload.merge(fields);
        if deleted {
            group.payload.insert("deleted", Json::Bool(true));
        }
    }
}

fn repoint(group: &mut Collapsed, remap: &IdRemap)
    ensures
        final(group).table == old(group).table,
        final(group).ids == old(group).ids,
        final(group).payload@ == repointed(old(group).table@, old(group).payload@, remap@),
{
    if same_text(group.table.as_str(), "notes") {
        let resolved = match group.payload.get_text("book_id") {
            Some(book) => Some(resolve_book_id(book.as_str(), remap)),
            None => None,
        };
        if let Some(book) = resolved {
            group.payload.insert("book_id", Json::Str(book));
        }
    }
}

/// The keys are in byte order and each key's group holds exactly its writes.
pub open spec fn grouped(
    done: Seq<ItemV>,
    keys: Seq<Seq<char>>,
    groups: Seq<CollapsedV>,
) -> bool {
    &&& keys.len() == groups.len()
    &&& forall|i: int, j: int| 0 <= i < j < keys.len() ==> text_less(keys[i], keys[j])
    &&& forall|i: int|
        0 <= i < keys.len() ==> with_key(done, #[trigger] keys[i]).len() > 0 && groups[i]
            == group_of(with_key(done, keys[i]))
    &&& forall|n: int| 0 <= n < done.len() ==> keys.contains(group_key(#[trigger] done[n]))
}

proof fn lemma_with_key_absent(items: Seq<ItemV>, key: Seq<char>)
    requires
        forall|n: int| 0 <= n < items.len() ==> group_key(#[trigger] items[n]) != key,
    ensures
        with_key(items, key).len() == 0,
    decreases items.len(),
{
    if items.len() > 0 {
        assert(group_key(items[items.len() - 1]) != key);
        assert forall|n: int| 0 <= n < items.drop_last().len() implies group_key(
            #[trigger] items.drop_last()[n],
        ) != key by {
            assert(items.drop_last()[n] == items[n]);
        }
        lemma_with_key_absent(items.drop_last(), key);
    }
}

proof fn lemma_group_of_push(items: Seq<ItemV>, item: ItemV)
    ensures
        group_of(items.push(item)) == (CollapsedV {
            table: if items.len() == 0 {
                item.table
            } else {
                items[0].table
            },
            ids: group_of(items).ids.push(item.id),
            payload: match item.payload {
                JsonV::Obj(fields) => merged_over(merged_all(items), fields),
                _ => merged_all(items),
            },
        }),
{
    assert(items.push(item).drop_last() =~= items);
    assert(items.push(item).map_values(|i: ItemV| i.id) =~= items.map_values(
        |i: ItemV| i.id,
    ).push(item.id));
}

/// Adding one write to a sorted grouping.
proof fn lemma_grouped_step(
    done: Seq<ItemV>,
    item: ItemV,
    keys: Seq<Seq<char>>,
    groups: Seq<CollapsedV>,
    at: int,
    new_keys: Seq<Seq<char>>,
    new_groups: Seq<CollapsedV>,
)
    requires
        grouped(done, keys, groups),
        0 <= at <= keys.len(),
        forall|i: int| 0 <= i < at ==> text_less(#[trigger] keys[i], group_key(item)),
        at < keys.len() ==> !text_less(keys[at], group_key(item)),
        at < keys.len() && keys[at] == group_key(item) ==> new_keys == keys && new_groups
            == groups.update(at, group_of(with_key(done, keys[at]).push(item))),
        !(at < keys.len() && keys[at] == group_key(item)) ==> new_keys == keys.insert(
            at,
            group_key(item),
        ) && new_groups == groups.insert(at, group_of(seq![item])),
    ensures
        grouped(done.push(item), new_keys, new_groups),
{
    let key = group_key(item);
    let all = done.push(item);
    assert(all.drop_last() =~= done);
    assert forall|k: Seq<char>| k != key implies with_key(all, k) == with_key(done, k) by {}
    assert(with_key(all, key) == with_key(done, key).push(item));
    if at < keys.len() && keys[at] == key {
        assert forall|i: int| 0 <= i < new_keys.len() implies with_key(
            all,
            #[trigger] new_keys[i],
        ).len() > 0 && new_groups[i] == group_of(with_key(all, new_keys[i])) by {
            if i != at {
                lemma_text_order(keys[i], keys[at], key);
                lemma_text_order(keys[at], keys[i], key);
                assert(keys[i] != key) by {
                    if i < at {
                        assert(text_less(keys[i], keys[at]));
                    } else {
                        assert(text_less(keys[at], keys[i]));
                    }
                }
                assert(with_key(done, keys[i]).len() > 0);
            }
        }
        assert forall|n: int| 0 <= n < all.len() implies new_keys.contains(
            group_key(#[trigger] all[n]),
        ) by {
            if n < done.len() {
                assert(all[n] == done[n]);
            } else {
                assert(new_keys[at] == key);
            }
        }
    } else {
        assert forall|i: int| 0 <= i < keys.len() implies keys[i] != key by {
            if i < at {
                lemma_text_order(keys[i], key, key);
            } else {
                if i > at {
                    assert(text_less(keys[at], keys[i]));
                }
                lemma_text_order(keys[at], key, key);
                lemma_text_order(key, keys[at], keys[i]);
                lemma_text_order(key, key, key);
            }
        }
        assert(with_key(done, key).len() == 0) by {
            assert forall|n: int| 0 <= n < done.len() implies group_key(#[trigger] done[n])
                != key by {
                assert(keys.contains(group_key(done[n])));
            }
            lemma_with_key_absent(done, key);
        }
        assert(with_key(all, key) =~= seq![item]);
        assert forall|i: int, j: int| 0 <= i < j < new_keys.len() implies text_less(
            new_keys[i],
            new_keys[j],
        ) by {
            let a = if i < at { i } else { i - 1 };
            let b = if j < at { j } else { j - 1 };
            if i != at && j != at {
                assert(text_less(keys[a], keys[b]));
            } else if j == at {
                assert(text_less(keys[i], key));
            } else {
                lemma_text_order(key, keys[at], keys[b]);
                lemma_text_order(keys[at], key, key);
                if b > at {
                    assert(text_less(keys[at], keys[b]));
                }
            }
        }
        assert forall|i: int| 0 <= i < new_keys.len() implies with_key(
            all,
            #[trigger] new_keys[i],
        ).len() > 0 && new_groups[i] == group_of(with_key(all, new_keys[i])) by {
            if i < at {
                assert(new_keys[i] == keys[i]);
            } else if i > at {
                assert(new_keys[i] == keys[i - 1]);
            }
        }
        assert forall|n: int| 0 <= n < all.len() implies new_keys.contains(
            group_key(#[trigger] all[n]),
        ) by {
            if n < done.len() {
                assert(all[n] == done[n]);
                let i = choose|i: int| 0 <= i < keys.len() && keys[i] == group_key(done[n]);
                if i < at {
                    assert(new_keys[i] == keys[i]);
                } else {
                    assert(new_keys[i + 1] == keys[i]);
                }
            } else {
                assert(new_keys[at] == key);
            }
        }
    }
}

proof fn lemma_insert_by_time_keeps(sorted: Seq<ItemV>, item: ItemV, x: ItemV)
    ensures
        sorted.contains(x) || x == item ==> insert_by_time(sorted, item).contains(x),
    decreases sorted.len(),
{
    let out = insert_by_time(sorted, item);
    if sorted.len() > 0 && sorted.last().created_at > item.created_at {
        lemma_insert_by_time_keeps(sorted.drop_last(), item, x);
        let inner = insert_by_time(sorted.drop_last(), item);
        if sorted.contains(x) || x == item {
            if sorted.contains(x) {
                let i = choose|i: int| 0 <= i < sorted.len() && sorted[i] == x;
                if i == sorted.len() - 1 {
                    assert(out[out.len() - 1] == x);
                } else {
                    assert(sorted.drop_last()[i] == x);
                    let j = choose|j: int| 0 <= j < inner.len() && inner[j] == x;
                    assert(out[j] == x);
                }
            } else {
                let j = choose|j: int| 0 <= j < inner.len() && inner[j] == x;
                assert(out[j] == x);
            }
        }
    } else {
        if sorted.contains(x) {
            let i = choose|i: int| 0 <= i < sorted.len() && sorted[i] == x;
            assert(out[i] == x);
        } else if x == item {
            assert(out[sorted.len() as int] == x);
        }
    }
}

proof fn lemma_by_time_keeps(items: Seq<ItemV>, n: int)
    requires
        0 <= n < items.len(),
    ensures
        by_time(items).contains(items[n]),
    decreases items.len(),
{
    lemma_insert_by_time_keeps(by_time(items.drop_last()), items.last(), items[n]);
    if n < items.len() - 1 {
        lemma_by_time_keeps(items.drop_last(), n);
        assert(items.drop_last()[n] == items[n]);
    }
}

/// Collapses queued writes into one upsert for each record, in the byte order of their keys.
pub fn collapse(items: Vec<OutboxItem>, book_id_remap: &IdRemap) -> (groups: Vec<Collapsed>)
    ensures
        exists|keys: Seq<Seq<char>>|
            collapses_to(items_of(items@), book_id_remap@, keys, collapsed_view(groups@)),
{
    let sorted = sort_by_time(&items);
    let ghost all = refs_view(sorted@);
    let mut keys: Vec<String> = Vec::new();
    let mut groups: Vec<Collapsed> = Vec::new();
    let mut n: usize = 0;
    while n < sorted.len()
        invariant
            n <= sorted@.len(),
            all == refs_view(sorted@),
            grouped(all.take(n as int), crate::json::texts_view(keys@), collapsed_view(groups@)),
        decreases sorted.len() - n,
    {
        let item = sorted[n];
        let key = key_text(item);
        let ghost done = all.take(n as int);
        let ghost old_keys = crate::json::texts_view(keys@);
        let ghost old_groups = collapsed_view(groups@);
        let mut at: usize = 0;
        while at < keys.len() && text_before(keys[at].as_str(), key.as_str())
            invariant
                at <= keys@.len(),
                forall|i: int| 0 <= i < at ==> text_less((#[trigger] keys@[i])@, key@),
            decreases keys.len() - at,
        {
            at = at + 1;
        }
        assert forall|i: int| 0 <= i < at implies text_less(#[trigger] old_keys[i], key@) by {
            assert(old_keys[i] == keys@[i]@);
        }
        assert(all.take(n + 1) =~= done.push(item@));
        if at < keys.len() && same_text(keys[at].as_str(), key.as_str()) {
            let mut group = groups.remove(at);
            absorb(&mut group, item);
            proof {
                lemma_group_of_push(with_key(done, old_keys[at as int]), item@);
                assert(old_groups[at as int] == group_of(with_key(done, old_keys[at as int])));
                let g = group_of(with_key(done, old_keys[at as int]).push(item@));
                assert(group@.ids =~= g.ids);
                assert(group@ == g);
            }
            let ghost added = group@;
            groups.insert(at, group);
            proof {
                assert(collapsed_view(groups@) =~= old_groups.update(at as int, added));
                lemma_grouped_step(
                    done,
                    item@,
                    old_keys,
                    old_groups,
                    at as int,
                    crate::json::texts_view(keys@),
                    collapsed_view(groups@),
                );
            }
        } else {
            let mut group = Collapsed {
                table: item.table_name.clone(),
                ids: Vec::new(),
                payload: Fields::new(),
            };
            absorb(&mut group, item);
            proof {
                lemma_group_of_push(Seq::empty(), item@);
                assert(Seq::empty().push(item@) =~= seq![item@]);
                let g = group_of(seq![item@]);
                assert(group@.ids =~= g.ids);
                assert(group@ == g);
            }
            let ghost added = group@;
            groups.insert(at, group);
            keys.insert(at, key);
            proof {
                assert(collapsed_view(groups@) =~= old_groups.insert(at as int, added));
                assert(crate::json::texts_view(keys@) =~= old_keys.insert(at as int, key@));
                lemma_grouped_step(
                    done,
                    item@,
                    old_keys,
                    old_groups,
                    at as int,
                    crate::json::texts_view(keys@),
                    collapsed_view(groups@),
                );
            }
        }
        n = n + 1;
    }
    assert(all.take(all.len() as int) =~= all);
    let ghost plain = collapsed_view(groups@);
    let ghost names = crate::json::texts_view(keys@);
    let mut out: Vec<Collapsed> = Vec::new();
    let mut rest = reversed(groups);
    while rest.len() > 0
        invariant
            rest@.len() + out@.len() == plain.len(),
            forall|i: int|
                0 <= i < rest@.len() ==> (#[trigger] rest@[i])@ == plain[plain.len() - 1 - i],
            forall|i: int|
                0 <= i < out@.len() ==> (#[trigger] out@[i])@ == (CollapsedV {
                    table: plain[i].table,
                    ids: plain[i].ids,
                    payload: repointed(plain[i].table, plain[i].payload, book_id_remap@),
                }),
        decreases rest.len(),
    {
        if let Some(mut group) = rest.pop() {
            repoint(&mut group, book_id_remap);
            out.push(group);
        }
    }
    proof {
        let result = collapsed_view(out@);
        assert forall|i: int| 0 <= i < names.len() implies with_key(all, #[trigger] names[i]).len()
            > 0 && result[i] == collapsed_group(with_key(all, names[i]), book_id_remap@) by {
            assert(plain[i] == group_of(with_key(all, names[i])));
            assert(result[i] == out@[i]@);
        }
        assert forall|m: int| 0 <= m < items@.len() implies names.contains(
            group_key(#[trigger] items_of(items@)[m]),
        ) by {
            lemma_by_time_keeps(items_of(items@), m);
            let k = choose|k: int| 0 <= k < all.len() && all[k] == items_of(items@)[m];
            assert(names.contains(group_key(all[k])));
        }
        assert(collapses_to(items_of(items@), book_id_remap@, names, result));
    }
    out
}

proof fn lemma_has_key(items: Seq<ItemV>, key: Seq<char>)
    requires
        with_key(items, key).len() > 0,
    ensures
        exists|n: int| 0 <= n < items.len() && group_key(#[trigger] items[n]) == key,
    decreases items.len(),
{
    if items.len() > 0 {
        if group_key(items.last()) == key {
            assert(group_key(items[items.len() - 1]) == key);
        } else {
            lemma_has_key(items.drop_last(), key);
            let n = choose|n: int|
                0 <= n < items.drop_last().len() && group_key(#[trigger] items.drop_last()[n])
                    == key;
            assert(items[n] == items.drop_last()[n]);
        }
    }
}

proof fn lemma_insert_by_time_multiset(sorted: Seq<ItemV>, item: ItemV)
    ensures
        insert_by_time(sorted, item).to_multiset() == sorted.to_multiset().insert(item),
    decreases sorted.len(),
{
    broadcast use vstd::seq_lib::group_to_multiset_ensures;

    if sorted.len() > 0 && sorted.last().created_at > item.created_at {
        let before = sorted.drop_last();
        lemma_insert_by_time_multiset(before, item);
        assert(sorted =~= before.push(sorted.last()));
        assert(insert_by_time(sorted, item).to_multiset() =~= sorted.to_multiset().insert(item));
    }
}

/// Writes of which none is older than one that stands in front of it.
pub open spec fn in_time_order(items: Seq<ItemV>) -> bool {
    forall|i: int, j: int|
        0 <= i < j < items.len() ==> (#[trigger] items[i]).created_at <= (
        #[trigger] items[j]).created_at
}

proof fn lemma_insert_by_time_order(sorted: Seq<ItemV>, item: ItemV)
    requires
        in_time_order(sorted),
    ensures
        in_time_order(insert_by_time(sorted, item)),
        insert_by_time(sorted, item).len() == sorted.len() + 1,
        forall|i: int|
            0 <= i <= sorted.len() ==> {
                let t = (#[trigger] insert_by_time(sorted, item)[i]).created_at;
                t <= item.created_at || (sorted.len() > 0 && t <= sorted.last().created_at)
            },
    decreases sorted.len(),
{
    let out = insert_by_time(sorted, item);
    if sorted.len() > 0 && sorted.last().created_at > item.created_at {
        let before = sorted.drop_last();
        let last = sorted.last();
        assert(sorted[sorted.len() - 1] == last);
        assert forall|i: int, j: int| 0 <= i < j < before.len() implies (
        #[trigger] before[i]).created_at <= (#[trigger] before[j]).created_at by {
            assert(before[i] == sorted[i] && before[j] == sorted[j]);
        }
        lemma_insert_by_time_order(before, item);
        let inner = insert_by_time(before, item);
        if before.len() > 0 {
            assert(before.last() == sorted[sorted.len() - 2]);
            assert(sorted[sorted.len() - 2].created_at <= last.created_at);
        }
        assert forall|i: int, j: int| 0 <= i < j < out.len() implies (
        #[trigger] out[i]).created_at <= (#[trigger] out[j]).created_at by {
            assert(out[i] == inner[i]);
            if j < inner.len() {
                assert(out[j] == inner[j]);
            }
        }
        assert forall|i: int| 0 <= i <= sorted.len() implies {
            let t = (#[trigger] out[i]).created_at;
            t <= item.created_at || (sorted.len() > 0 && t <= sorted.last().created_at)
        } by {
            if i < inner.len() {
                assert(out[i] == inner[i]);
            }
        }
    } else {
        assert forall|i: int, j: int| 0 <= i < j < out.len() implies (
        #[trigger] out[i]).created_at <= (#[trigger] out[j]).created_at by {
            if j == sorted.len() {
                assert(sorted[sorted.len() - 1] == sorted.last());
                assert(out[i] == sorted[i]);
            } else {
                assert(out[i] == sorted[i] && out[j] == sorted[j]);
            }
        }
        assert forall|i: int| 0 <= i <= sorted.len() implies {
            let t = (#[trigger] out[i]).created_at;
            t <= item.created_at || (sorted.len() > 0 && t <= sorted.last().created_at)
        } by {
            if i < sorted.len() {
                assert(out[i] == sorted[i]);
                assert(sorted[sorted.len() - 1] == sorted.last());
            }
        }
    }
}

/// Queued writes are merged in the order of their times, whatever order they come in; none is lost
/// and none is added.
pub proof fn law_writes_merge_by_time(items: Seq<ItemV>)
    ensures
        in_time_order(by_time(items)),
        by_time(items).to_multiset() == items.to_multiset(),
    decreases items.len(),
{
    broadcast use vstd::seq_lib::group_to_multiset_ensures;

    if items.len() > 0 {
        let before = items.drop_last();
        law_writes_merge_by_time(before);
        lemma_insert_by_time_order(by_time(before), items.last());
        lemma_insert_by_time_multiset(by_time(before), items.last());
        assert(items =~= before.push(items.last()));
        assert(by_time(items).to_multiset() =~= items.to_multiset());
    } else {
        assert(by_time(items) =~= items);
    }
}

proof fn lemma_keys_are_those_of_items(
    items: Seq<ItemV>,
    remap: Map<Seq<char>, Seq<char>>,
    keys: Seq<Seq<char>>,
    groups: Seq<CollapsedV>,
    key: Seq<char>,
)
    requires
        collapses_to(items, remap, keys, groups),
    ensures
        keys.contains(key) <==> exists|n: int|
            0 <= n < items.len() && group_key(#[trigger] items[n]) == key,
{
    broadcast use vstd::seq_lib::group_to_multiset_ensures;

    let sorted = by_time(items);
    law_writes_merge_by_time(items);
    if keys.contains(key) {
        let i = choose|i: int| 0 <= i < keys.len() && keys[i] == key;
        assert(with_key(sorted, keys[i]).len() > 0);
        lemma_has_key(sorted, key);
        let m = choose|m: int| 0 <= m < sorted.len() && group_key(#[trigger] sorted[m]) == key;
        assert(sorted.to_multiset().contains(sorted[m]));
        assert(items.to_multiset().contains(sorted[m]));
        let n = choose|n: int| 0 <= n < items.len() && items[n] == sorted[m];
        assert(group_key(items[n]) == key);
    }
}

proof fn lemma_ordered_keys_equal(a: Seq<Seq<char>>, b: Seq<Seq<char>>)
    requires
        forall|i: int, j: int| 0 <= i < j < a.len() ==> text_less(a[i], a[j]),
        forall|i: int, j: int| 0 <= i < j < b.len() ==> text_less(b[i], b[j]),
        forall|key: Seq<char>| #[trigger] a.contains(key) <==> b.contains(key),
    ensures
        a == b,
    decreases a.len(),
{
    if a.len() == 0 {
        if b.len() > 0 {
            assert(b.contains(b[0]));
            assert(!a.contains(b[0]));
        }
        assert(a =~= b);
    } else {
        assert(a.contains(a.last())) by {
            assert(a[a.len() - 1] == a.last());
        }
        assert(b.contains(a.last()));
        assert(b.len() > 0);
        assert(b.contains(b.last())) by {
            assert(b[b.len() - 1] == b.last());
        }
        assert(a.contains(b.last()));
        let i = choose|i: int| 0 <= i < b.len() && b[i] == a.last();
        let j = choose|j: int| 0 <= j < a.len() && a[j] == b.last();
        lemma_text_order(a.last(), b.last(), a.last());
        if i < b.len() - 1 && j < a.len() - 1 {
            assert(text_less(b[i], b[b.len() - 1]));
            assert(text_less(a[j], a[a.len() - 1]));
        }
        assert(a.last() == b.last());
        let x = a.drop_last();
        let y = b.drop_last();
        assert forall|key: Seq<char>| #[trigger] x.contains(key) <==> y.contains(key) by {
            if x.contains(key) {
                let k = choose|k: int| 0 <= k < x.len() && x[k] == key;
                assert(a[k] == key);
                assert(text_less(a[k], a[a.len() - 1]));
                lemma_text_order(key, a.last(), key);
                assert(a.contains(key));
                let m = choose|m: int| 0 <= m < b.len() && b[m] == key;
                assert(m < b.len() - 1);
                assert(y[m] == key);
            }
            if y.contains(key) {
                let k = choose|k: int| 0 <= k < y.len() && y[k] == key;
                assert(b[k] == key);
                assert(text_less(b[k], b[b.len() - 1]));
                lemma_text_order(key, b.last(), key);
                assert(b.contains(key));
                assert(a.contains(key));
                let m = choose|m: int| 0 <= m < a.len() && a[m] == key;
                assert(m < a.len() - 1);
                assert(x[m] == key);
            }
        }
        assert forall|p: int, q: int| 0 <= p < q < x.len() implies text_less(x[p], x[q]) by {
            assert(x[p] == a[p] && x[q] == a[q]);
        }
        assert forall|p: int, q: int| 0 <= p < q < y.len() implies text_less(y[p], y[q]) by {
            assert(y[p] == b[p] && y[q] == b[q]);
        }
        lemma_ordered_keys_equal(x, y);
        assert(a =~= x.push(a.last()));
        assert(b =~= y.push(b.last()));
    }
}

/// Queued writes collapse to one thing only.
pub proof fn law_collapse_is_unique(
    items: Seq<ItemV>,
    remap: Map<Seq<char>, Seq<char>>,
    keys: Seq<Seq<char>>,
    groups: Seq<CollapsedV>,
    other_keys: Seq<Seq<char>>,
    other_groups: Seq<CollapsedV>,
)
    requires
        collapses_to(items, remap, keys, groups),
        collapses_to(items, remap, other_keys, other_groups),
    ensures
        keys == other_keys,
        groups == other_groups,
{
    assert forall|key: Seq<char>| #[trigger] keys.contains(key) <==> other_keys.contains(key) by {
        lemma_keys_are_those_of_items(items, remap, keys, groups, key);
        lemma_keys_are_those_of_items(items, remap, other_keys, other_groups, key);
    }
    lemma_ordered_keys_equal(keys, other_keys);
    assert forall|i: int| 0 <= i < groups.len() implies groups[i] == other_groups[i] by {
        assert(with_key(by_time(items), keys[i]).len() > 0);
        assert(with_key(by_time(items), other_keys[i]).len() > 0);
    }
    assert(groups =~= other_groups);
}

proof fn lemma_with_key_has(items: Seq<ItemV>, n: int)
    requires
        0 <= n < items.len(),
    ensures
        with_key(items, group_key(items[n])).contains(items[n]),
    decreases items.len(),
{
    let key = group_key(items[n]);
    let out = with_key(items, key);
    if n == items.len() - 1 {
        assert(out[out.len() - 1] == items[n]);
    } else {
        lemma_with_key_has(items.drop_last(), n);
        let inner = with_key(items.drop_last(), key);
        assert(items.drop_last()[n] == items[n]);
        let k = choose|k: int| 0 <= k < inner.len() && inner[k] == items[n];
        assert(out[k] == items[n]);
    }
}

/// Every queued write is absorbed by the group of its record, so that none stays behind when the
/// group is pushed.
pub proof fn law_every_write_is_absorbed(
    items: Seq<ItemV>,
    remap: Map<Seq<char>, Seq<char>>,
    keys: Seq<Seq<char>>,
    groups: Seq<CollapsedV>,
    n: int,
)
    requires
        collapses_to(items, remap, keys, groups),
        0 <= n < items.len(),
    ensures
        exists|i: int|
            0 <= i < groups.len() && keys[i] == group_key(items[n]) && (
            #[trigger] groups[i]).ids.contains(items[n].id),
{
    let sorted = by_time(items);
    lemma_by_time_keeps(items, n);
    let m = choose|m: int| 0 <= m < sorted.len() && sorted[m] == items[n];
    lemma_with_key_has(sorted, m);
    let key = group_key(items[n]);
    assert(keys.contains(key));
    let i = choose|i: int| 0 <= i < keys.len() && keys[i] == key;
    let own = with_key(sorted, keys[i]);
    let k = choose|k: int| 0 <= k < own.len() && own[k] == items[n];
    assert(groups[i] == collapsed_group(own, remap));
    assert(groups[i].ids[k] == items[n].id);
}

/// The last write that carries a column decides it; a write that does not carry it leaves it as it
/// was.
pub proof fn law_last_write_wins_each_column(items: Seq<ItemV>, column: Seq<char>)
    requires
        items.len() > 0,
        column != "deleted"@,
    ensures
        field(merged_all(items), column) == match field(item_fields(items.last()), column) {
            Some(value) => Some(value),
            None => field(merged_all(items.drop_last()), column),
        },
{
}

/// Once deleted, a record stays deleted, whatever is written to it later.
pub proof fn law_delete_is_sticky(items: Seq<ItemV>, i: int)
    requires
        0 <= i < items.len(),
        truthy_deleted(item_fields(items[i])),
    ensures
        field(merged_all(items), "deleted"@) == Some(JsonV::Bool(true)),
    decreases items.len(),
{
    if i < items.len() - 1 {
        assert(items.drop_last()[i] == items[i]);
        law_delete_is_sticky(items.drop_last(), i);
    }
}

/// Repointing a note's book changes no other column, and no row of another table.
pub proof fn law_repointing_is_narrow(
    table: Seq<char>,
    row: RowV,
    remap: Map<Seq<char>, Seq<char>>,
    column: Seq<char>,
)
    requires
        column != "book_id"@ || table != "notes"@,
    ensures
        field(repointed(table, row, remap), column) == field(row, column),
{
}

proof fn lemma_walk_settles(
    id: Seq<char>,
    remap: Map<Seq<char>, Seq<char>>,
    hops: nat,
    more: nat,
)
    requires
        settled(walk(id, remap, hops), remap),
    ensures
        walk(id, remap, hops + more) == walk(id, remap, hops),
    decreases hops,
{
    if hops > 0 && !settled(id, remap) {
        lemma_walk_settles(remap[id], remap, (hops - 1) as nat, more);
    }
}

/// A chain of merges that ends within the cap is followed to the book that survived.
pub proof fn law_chain_is_followed_to_its_end(
    id: Seq<char>,
    remap: Map<Seq<char>, Seq<char>>,
    hops: nat,
)
    requires
        hops <= MAX_HOPS,
        settled(walk(id, remap, hops), remap),
    ensures
        walk(id, remap, MAX_HOPS as nat) == walk(id, remap, hops),
        settled(walk(id, remap, MAX_HOPS as nat), remap),
{
    lemma_walk_settles(id, remap, hops, (MAX_HOPS - hops) as nat);
}

/// Following a chain that ends within the cap once more leads nowhere else.
pub proof fn law_resolving_twice_is_resolving_once(
    id: Seq<char>,
    remap: Map<Seq<char>, Seq<char>>,
)
    requires
        settled(walk(id, remap, MAX_HOPS as nat), remap),
    ensures
        walk(walk(id, remap, MAX_HOPS as nat), remap, MAX_HOPS as nat) == walk(
            id,
            remap,
            MAX_HOPS as nat,
        ),
{
}

} // verus!
