//! What a collapsed record holds, told from the queued writes themselves.

use crate::json::{field, JsonV, Number};
use crate::outbox::{
    by_time, collapsed_group, collapses_to, group_key, in_time_order, insert_by_time, item_fields,
    law_writes_merge_by_time, merged_all, truthy_deleted, truthy_value, walk, with_key, CollapsedV,
    ItemV, MAX_HOPS,
};
use vstd::prelude::*;

verus! {

/// Whether a queued write is for the record with this key: the table, a colon, and the record,
/// which is the write's own, else the text in its `id` column, else nothing.
pub open spec fn is_for(item: ItemV, key: Seq<char>) -> bool {
    match item.record {
        Some(id) => key == item.table + ":"@ + id,
        None => match item.payload {
            JsonV::Obj(fields) => if fields.contains_key("id"@) && fields["id"@] is Str {
                key == item.table + ":"@ + fields["id"@]->Str_0
            } else {
                key == item.table + ":"@
            },
            _ => key == item.table + ":"@,
        },
    }
}

/// Whether a queued write for a record carries a column.
pub open spec fn sets(item: ItemV, key: Seq<char>, column: Seq<char>) -> bool {
    is_for(item, key) && item.payload is Obj && item.payload->Obj_0.contains_key(column)
}

/// Whether one queued write is merged ahead of another: it is older, or as old and queued first.
pub open spec fn ahead_of(items: Seq<ItemV>, m: int, n: int) -> bool {
    items[m].created_at < items[n].created_at || (items[m].created_at == items[n].created_at && m
        < n)
}

/// Whether a queued write is the last that carries a column of a record.
pub open spec fn decides(items: Seq<ItemV>, key: Seq<char>, column: Seq<char>, n: int) -> bool {
    &&& 0 <= n < items.len()
    &&& sets(items[n], key, column)
    &&& forall|m: int|
        0 <= m < items.len() && m != n && sets(#[trigger] items[m], key, column) ==> ahead_of(
            items,
            m,
            n,
        )
}

proof fn lemma_is_for(item: ItemV, key: Seq<char>)
    ensures
        is_for(item, key) <==> group_key(item) == key,
{
    assert(item.table + ":"@ + Seq::<char>::empty() =~= item.table + ":"@);
}

spec fn last_setting(items: Seq<ItemV>, key: Seq<char>, column: Seq<char>) -> Option<ItemV>
    decreases items.len(),
{
    if items.len() == 0 {
        None
    } else if sets(items.last(), key, column) {
        Some(items.last())
    } else {
        last_setting(items.drop_last(), key, column)
    }
}

proof fn lemma_last_setting_is_there(items: Seq<ItemV>, key: Seq<char>, column: Seq<char>)
    ensures
        last_setting(items, key, column) matches Some(item) ==> sets(item, key, column) && exists|
            i: int,
        |
            0 <= i < items.len() && #[trigger] items[i] == item,
        last_setting(items, key, column) is None ==> forall|i: int|
            0 <= i < items.len() ==> !sets(#[trigger] items[i], key, column),
    decreases items.len(),
{
    if items.len() > 0 {
        lemma_last_setting_is_there(items.drop_last(), key, column);
        if sets(items.last(), key, column) {
            assert(items[items.len() - 1] == items.last());
        } else {
            match last_setting(items.drop_last(), key, column) {
                Some(item) => {
                    let i = choose|i: int|
                        0 <= i < items.drop_last().len() && #[trigger] items.drop_last()[i] == item;
                    assert(items[i] == item);
                },
                None => {
                    assert forall|i: int| 0 <= i < items.len() implies !sets(
                        #[trigger] items[i],
                        key,
                        column,
                    ) by {
                        if i < items.len() - 1 {
                            assert(items.drop_last()[i] == items[i]);
                        }
                    }
                },
            }
        }
    }
}

proof fn lemma_merged_column(items: Seq<ItemV>, key: Seq<char>, column: Seq<char>)
    requires
        column != "deleted"@,
    ensures
        field(merged_all(with_key(items, key)), column) == match last_setting(items, key, column) {
            Some(item) => Some(item.payload->Obj_0[column]),
            None => None,
        },
    decreases items.len(),
{
    if items.len() > 0 {
        lemma_merged_column(items.drop_last(), key, column);
        lemma_is_for(items.last(), key);
        let before = with_key(items.drop_last(), key);
        if group_key(items.last()) == key {
            assert(with_key(items, key).drop_last() =~= before);
            assert(with_key(items, key).last() == items.last());
        }
    }
}

proof fn lemma_inserted_setting(sorted: Seq<ItemV>, item: ItemV, key: Seq<char>, column: Seq<char>)
    requires
        in_time_order(sorted),
    ensures
        last_setting(insert_by_time(sorted, item), key, column) == (if sets(item, key, column) {
            match last_setting(sorted, key, column) {
                Some(last) => if last.created_at > item.created_at {
                    Some(last)
                } else {
                    Some(item)
                },
                None => Some(item),
            }
        } else {
            last_setting(sorted, key, column)
        }),
    decreases sorted.len(),
{
    let out = insert_by_time(sorted, item);
    if sorted.len() > 0 && sorted.last().created_at > item.created_at {
        let before = sorted.drop_last();
        assert forall|i: int, j: int| 0 <= i < j < before.len() implies (
        #[trigger] before[i]).created_at <= (#[trigger] before[j]).created_at by {
            assert(before[i] == sorted[i] && before[j] == sorted[j]);
        }
        lemma_inserted_setting(before, item, key, column);
        assert(out.drop_last() =~= insert_by_time(before, item));
        assert(out.last() == sorted.last());
    } else {
        assert(out.drop_last() =~= sorted);
        assert(out.last() == item);
        lemma_last_setting_is_there(sorted, key, column);
        if let Some(last) = last_setting(sorted, key, column) {
            let i = choose|i: int| 0 <= i < sorted.len() && #[trigger] sorted[i] == last;
            assert(sorted[sorted.len() - 1] == sorted.last());
            assert(sorted[i].created_at <= sorted[sorted.len() - 1].created_at);
        }
    }
}

proof fn lemma_decided(items: Seq<ItemV>, key: Seq<char>, column: Seq<char>)
    ensures
        match last_setting(by_time(items), key, column) {
            Some(item) => exists|n: int| #[trigger]
                decides(items, key, column, n) && items[n] == item,
            None => forall|i: int|
                0 <= i < items.len() ==> !sets(#[trigger] items[i], key, column),
        },
    decreases items.len(),
{
    if items.len() > 0 {
        let before = items.drop_last();
        let last = items.len() - 1;
        let item = items.last();
        lemma_decided(before, key, column);
        law_writes_merge_by_time(before);
        lemma_inserted_setting(by_time(before), item, key, column);
        match last_setting(by_time(before), key, column) {
            Some(held) => {
                let n = choose|n: int| #[trigger]
                    decides(before, key, column, n) && before[n] == held;
                assert(items[n] == held);
                if sets(item, key, column) && held.created_at <= item.created_at {
                    assert(decides(items, key, column, last)) by {
                        assert forall|m: int|
                            0 <= m < items.len() && m != last && sets(
                                #[trigger] items[m],
                                key,
                                column,
                            ) implies ahead_of(items, m, last) by {
                            assert(before[m] == items[m]);
                            assert(m == n || ahead_of(before, m, n));
                        }
                    }
                } else {
                    assert(decides(items, key, column, n)) by {
                        assert forall|m: int|
                            0 <= m < items.len() && m != n && sets(
                                #[trigger] items[m],
                                key,
                                column,
                            ) implies ahead_of(items, m, n) by {
                            if m < last {
                                assert(before[m] == items[m]);
                                assert(ahead_of(before, m, n));
                            }
                        }
                    }
                }
            },
            None => {
                assert forall|m: int| 0 <= m < last implies !sets(
                    #[trigger] items[m],
                    key,
                    column,
                ) by {
                    assert(before[m] == items[m]);
                }
                if sets(item, key, column) {
                    assert(decides(items, key, column, last));
                }
            },
        }
    }
}

proof fn lemma_one_decides(items: Seq<ItemV>, key: Seq<char>, column: Seq<char>, n: int, m: int)
    requires
        decides(items, key, column, n),
        decides(items, key, column, m),
    ensures
        n == m,
{
}

/// Each column of a collapsed record but the mark of deletion and the book of a note is that of the
/// last queued write that carries it, by time and then by place in the queue. A column that none
/// carries is absent.
pub proof fn law_column_is_that_of_the_last_write(
    items: Seq<ItemV>,
    remap: Map<Seq<char>, Seq<char>>,
    keys: Seq<Seq<char>>,
    groups: Seq<CollapsedV>,
    g: int,
    column: Seq<char>,
    n: int,
)
    requires
        collapses_to(items, remap, keys, groups),
        0 <= g < groups.len(),
        column != "deleted"@,
        column != "book_id"@ || groups[g].table != "notes"@,
    ensures
        decides(items, keys[g], column, n) ==> groups[g].payload.contains_key(column)
            && groups[g].payload[column] == items[n].payload->Obj_0[column],
        (forall|m: int| 0 <= m < items.len() ==> !sets(#[trigger] items[m], keys[g], column))
            ==> !groups[g].payload.contains_key(column),
{
    let own = with_key(by_time(items), keys[g]);
    assert(groups[g] == collapsed_group(own, remap));
    lemma_merged_column(by_time(items), keys[g], column);
    lemma_decided(items, keys[g], column);
    lemma_last_setting_is_there(by_time(items), keys[g], column);
    match last_setting(by_time(items), keys[g], column) {
        Some(item) => {
            let k = choose|k: int| #[trigger]
                decides(items, keys[g], column, k) && items[k] == item;
            if decides(items, keys[g], column, n) {
                lemma_one_decides(items, keys[g], column, n, k);
            }
        },
        None => {},
    }
}

/// Whether a list of books leads from one along merges to the end: each was merged into the next,
/// at most twenty times, and the last was merged into no other unless the twenty are used up.
pub open spec fn leads_along(
    remap: Map<Seq<char>, Seq<char>>,
    book: Seq<char>,
    chain: Seq<Seq<char>>,
) -> bool {
    &&& 1 <= chain.len() <= 21
    &&& chain[0] == book
    &&& forall|i: int|
        0 <= i < chain.len() - 1 ==> #[trigger] remap.contains_key(chain[i])
            && remap[chain[i]] == chain[i + 1] && remap[chain[i]] != chain[i]
    &&& chain.len() == 21 || !remap.contains_key(chain.last()) || remap[chain.last()]
        == chain.last()
}

proof fn lemma_walk_chain(remap: Map<Seq<char>, Seq<char>>, book: Seq<char>, hops: nat) -> (chain: Seq<
    Seq<char>,
>)
    ensures
        1 <= chain.len() <= hops + 1,
        chain[0] == book,
        forall|i: int|
            0 <= i < chain.len() - 1 ==> #[trigger] remap.contains_key(chain[i])
                && remap[chain[i]] == chain[i + 1] && remap[chain[i]] != chain[i],
        chain.len() == hops + 1 || !remap.contains_key(chain.last()) || remap[chain.last()]
            == chain.last(),
        chain.last() == walk(book, remap, hops),
    decreases hops,
{
    if hops == 0 || !remap.contains_key(book) || remap[book] == book {
        seq![book]
    } else {
        let rest = lemma_walk_chain(remap, remap[book], (hops - 1) as nat);
        let chain = seq![book] + rest;
        assert(chain.last() == rest.last());
        assert forall|i: int| 0 <= i < chain.len() - 1 implies #[trigger] remap.contains_key(
            chain[i],
        ) && remap[chain[i]] == chain[i + 1] && remap[chain[i]] != chain[i] by {
            if i > 0 {
                assert(chain[i] == rest[i - 1]);
                assert(remap.contains_key(rest[i - 1]));
                assert(chain[i + 1] == rest[i]);
            } else {
                assert(chain[1] == rest[0]);
            }
        }
        chain
    }
}

/// A book is resolved to the end of its chain of merges, followed at most twenty times.
pub proof fn law_book_is_resolved_along_merges(remap: Map<Seq<char>, Seq<char>>, book: Seq<char>)
    ensures
        exists|chain: Seq<Seq<char>>| #[trigger]
            leads_along(remap, book, chain) && walk(book, remap, MAX_HOPS as nat) == chain.last(),
{
    let chain = lemma_walk_chain(remap, book, MAX_HOPS as nat);
    assert(leads_along(remap, book, chain));
}

/// A queued note points at the book that survived, whatever other columns it carries: where the
/// last write of its book is a text, the collapsed book is the end of the chain of merges from it.
/// A book that is no text, such as a null, stays as it was written.
pub proof fn law_note_points_at_the_surviving_book(
    items: Seq<ItemV>,
    remap: Map<Seq<char>, Seq<char>>,
    keys: Seq<Seq<char>>,
    groups: Seq<CollapsedV>,
    g: int,
    n: int,
)
    requires
        collapses_to(items, remap, keys, groups),
        0 <= g < groups.len(),
        groups[g].table == "notes"@,
        decides(items, keys[g], "book_id"@, n),
    ensures
        groups[g].payload.contains_key("book_id"@),
        match items[n].payload->Obj_0["book_id"@] {
            JsonV::Str(book) => exists|chain: Seq<Seq<char>>| #[trigger]
                leads_along(remap, book, chain) && groups[g].payload["book_id"@] == JsonV::Str(
                    chain.last(),
                ),
            value => groups[g].payload["book_id"@] == value,
        },
{
    lemma_book_is_not_deletion();
    let own = with_key(by_time(items), keys[g]);
    assert(groups[g] == collapsed_group(own, remap));
    lemma_merged_column(by_time(items), keys[g], "book_id"@);
    lemma_decided(items, keys[g], "book_id"@);
    lemma_last_setting_is_there(by_time(items), keys[g], "book_id"@);
    if let Some(item) = last_setting(by_time(items), keys[g], "book_id"@) {
        let k = choose|k: int| #[trigger]
            decides(items, keys[g], "book_id"@, k) && items[k] == item;
        lemma_one_decides(items, keys[g], "book_id"@, n, k);
    }
    assert(field(merged_all(own), "book_id"@) == Some(items[n].payload->Obj_0["book_id"@]));
    if let JsonV::Str(book) = items[n].payload->Obj_0["book_id"@] {
        law_book_is_resolved_along_merges(remap, book);
        let chain = choose|chain: Seq<Seq<char>>| #[trigger]
            leads_along(remap, book, chain) && walk(book, remap, MAX_HOPS as nat) == chain.last();
        assert(leads_along(remap, book, chain));
    }
}

proof fn lemma_book_is_not_deletion()
    ensures
        "book_id"@ != "deleted"@,
{
    reveal_strlit("book_id");
    reveal_strlit("deleted");
    assert("book_id"@[0] == 'b' && "deleted"@[0] == 'd');
}

/// What counts as a mark of deletion: true, a number other than zero of either sign, and a text
/// other than the empty one, `false` and `0`. A null, a list and an object do not.
pub proof fn law_marks_of_deletion(value: JsonV)
    ensures
        truthy_value(value) <==> match value {
            JsonV::Bool(b) => b == true,
            JsonV::Num(Number::PosInt(n)) => n > 0,
            JsonV::Num(Number::NegInt(n)) => n != 0,
            JsonV::Num(Number::Float(bits)) => bits != 0 && bits != 0x8000_0000_0000_0000,
            JsonV::Str(s) => s != Seq::<char>::empty() && s != "false"@ && s != "0"@,
            JsonV::Null => false,
            JsonV::Arr(_) => false,
            JsonV::Obj(_) => false,
        },
{
    if let JsonV::Str(s) = value {
        assert(s.len() == 0 ==> s =~= Seq::<char>::empty());
    }
}

/// Whether a queued write for a record marks it deleted.
pub open spec fn deletes(item: ItemV, key: Seq<char>) -> bool {
    sets(item, key, "deleted"@) && truthy_value(item.payload->Obj_0["deleted"@])
}

proof fn lemma_merged_deletion(items: Seq<ItemV>, key: Seq<char>)
    ensures
        ({
            let row = merged_all(with_key(items, key));
            if exists|i: int| 0 <= i < items.len() && deletes(#[trigger] items[i], key) {
                row.contains_key("deleted"@) && row["deleted"@] == JsonV::Bool(true)
            } else {
                !truthy_deleted(row) && field(row, "deleted"@) == match last_setting(
                    items,
                    key,
                    "deleted"@,
                ) {
                    Some(item) => Some(item.payload->Obj_0["deleted"@]),
                    None => None,
                }
            }
        }),
    decreases items.len(),
{
    if items.len() > 0 {
        let rest = items.drop_last();
        lemma_merged_deletion(rest, key);
        lemma_is_for(items.last(), key);
        let before = with_key(rest, key);
        if group_key(items.last()) == key {
            assert(with_key(items, key).drop_last() =~= before);
            assert(with_key(items, key).last() == items.last());
        }
        if exists|i: int| 0 <= i < rest.len() && deletes(#[trigger] rest[i], key) {
            let i = choose|i: int| 0 <= i < rest.len() && deletes(#[trigger] rest[i], key);
            assert(deletes(items[i], key));
            assert(truthy_deleted(merged_all(before)));
        } else if deletes(items.last(), key) {
            assert(deletes(items[items.len() - 1], key));
            assert(truthy_deleted(item_fields(items.last())));
        } else {
            assert forall|i: int| 0 <= i < items.len() implies !deletes(#[trigger] items[i], key) by {
                if i < rest.len() {
                    assert(rest[i] == items[i]);
                }
            }
        }
    }
}

/// A collapsed record is marked deleted if any of its queued writes marks it, whichever comes last.
/// Where none does, the mark is that of the last write that carries one, and absent if none does.
pub proof fn law_any_delete_deletes(
    items: Seq<ItemV>,
    remap: Map<Seq<char>, Seq<char>>,
    keys: Seq<Seq<char>>,
    groups: Seq<CollapsedV>,
    g: int,
    n: int,
)
    requires
        collapses_to(items, remap, keys, groups),
        0 <= g < groups.len(),
    ensures
        (exists|m: int| 0 <= m < items.len() && deletes(#[trigger] items[m], keys[g])) ==> {
            &&& groups[g].payload.contains_key("deleted"@)
            &&& groups[g].payload["deleted"@] == JsonV::Bool(true)
        },
        (forall|m: int| 0 <= m < items.len() ==> !deletes(#[trigger] items[m], keys[g])) && decides(
            items,
            keys[g],
            "deleted"@,
            n,
        ) ==> {
            &&& groups[g].payload.contains_key("deleted"@)
            &&& groups[g].payload["deleted"@] == items[n].payload->Obj_0["deleted"@]
        },
        (forall|m: int| 0 <= m < items.len() ==> !sets(#[trigger] items[m], keys[g], "deleted"@))
            ==> !groups[g].payload.contains_key("deleted"@),
{
    broadcast use vstd::seq_lib::group_to_multiset_ensures;

    lemma_book_is_not_deletion();
    let key = keys[g];
    let sorted = by_time(items);
    let own = with_key(sorted, key);
    assert(groups[g] == collapsed_group(own, remap));
    assert(field(groups[g].payload, "deleted"@) == field(merged_all(own), "deleted"@));
    lemma_merged_deletion(sorted, key);
    lemma_decided(items, key, "deleted"@);
    lemma_last_setting_is_there(sorted, key, "deleted"@);
    law_writes_merge_by_time(items);
    if exists|m: int| 0 <= m < items.len() && deletes(#[trigger] items[m], key) {
        let m = choose|m: int| 0 <= m < items.len() && deletes(#[trigger] items[m], key);
        assert(items.to_multiset().contains(items[m]));
        assert(sorted.to_multiset().contains(items[m]));
        let k = choose|k: int| 0 <= k < sorted.len() && sorted[k] == items[m];
        assert(deletes(sorted[k], key));
    } else {
        assert forall|k: int| 0 <= k < sorted.len() implies !deletes(#[trigger] sorted[k], key) by {
            assert(sorted.to_multiset().contains(sorted[k]));
            assert(items.to_multiset().contains(sorted[k]));
            let m = choose|m: int| 0 <= m < items.len() && items[m] == sorted[k];
            assert(!deletes(items[m], key));
        }
        if let Some(item) = last_setting(sorted, key, "deleted"@) {
            let k = choose|k: int| #[trigger]
                decides(items, key, "deleted"@, k) && items[k] == item;
            if decides(items, key, "deleted"@, n) {
                lemma_one_decides(items, key, "deleted"@, n, k);
            }
            assert(sets(items[k], key, "deleted"@));
        }
    }
}

proof fn lemma_absorbed(items: Seq<ItemV>, key: Seq<char>, i: int)
    requires
        0 <= i < with_key(items, key).len(),
    ensures
        is_for(with_key(items, key)[i], key),
        exists|n: int| 0 <= n < items.len() && #[trigger] items[n] == with_key(items, key)[i],
    decreases items.len(),
{
    let before = items.drop_last();
    if i < with_key(before, key).len() {
        lemma_absorbed(before, key, i);
        let n = choose|n: int|
            0 <= n < before.len() && #[trigger] before[n] == with_key(before, key)[i];
        assert(items[n] == with_key(items, key)[i]);
    } else {
        lemma_is_for(items.last(), key);
        assert(items[items.len() - 1] == items.last());
    }
}

/// A group absorbs only writes of its own record, is named after the table of one of them, and the
/// groups stand in the byte order of their keys, each once.
pub proof fn law_group_absorbs_only_its_own(
    items: Seq<ItemV>,
    remap: Map<Seq<char>, Seq<char>>,
    keys: Seq<Seq<char>>,
    groups: Seq<CollapsedV>,
    g: int,
    i: int,
)
    requires
        collapses_to(items, remap, keys, groups),
        0 <= g < groups.len(),
        0 <= i < groups[g].ids.len(),
    ensures
        exists|n: int|
            0 <= n < items.len() && (#[trigger] items[n]).id == groups[g].ids[i] && is_for(
                items[n],
                keys[g],
            ),
        exists|n: int|
            0 <= n < items.len() && (#[trigger] items[n]).table == groups[g].table && is_for(
                items[n],
                keys[g],
            ),
        keys.len() == groups.len(),
        forall|h: int| 0 <= h < g ==> crate::text::text_less(keys[h], keys[g]),
{
    broadcast use vstd::seq_lib::group_to_multiset_ensures;

    let sorted = by_time(items);
    let own = with_key(sorted, keys[g]);
    assert(groups[g] == collapsed_group(own, remap));
    law_writes_merge_by_time(items);
    lemma_absorbed(sorted, keys[g], i);
    lemma_absorbed(sorted, keys[g], 0);
    let k = choose|k: int| 0 <= k < sorted.len() && #[trigger] sorted[k] == own[i];
    assert(sorted.to_multiset().contains(sorted[k]));
    assert(items.to_multiset().contains(own[i]));
    let n = choose|n: int| 0 <= n < items.len() && items[n] == own[i];
    assert(items[n].id == groups[g].ids[i]);
    let k0 = choose|k: int| 0 <= k < sorted.len() && #[trigger] sorted[k] == own[0];
    assert(sorted.to_multiset().contains(sorted[k0]));
    assert(items.to_multiset().contains(own[0]));
    let n0 = choose|n: int| 0 <= n < items.len() && items[n] == own[0];
    assert(items[n0].table == groups[g].table);
}

/// The places of the queued writes for a record.
pub open spec fn places_for(items: Seq<ItemV>, key: Seq<char>) -> Set<int> {
    Set::new(|n: int| 0 <= n < items.len() && is_for(items[n], key))
}

proof fn lemma_inserted_len(sorted: Seq<ItemV>, item: ItemV, key: Seq<char>)
    ensures
        with_key(insert_by_time(sorted, item), key).len() == with_key(sorted, key).len() + (
        if group_key(item) == key {
            1int
        } else {
            0
        }),
    decreases sorted.len(),
{
    let out = insert_by_time(sorted, item);
    if sorted.len() > 0 && sorted.last().created_at > item.created_at {
        lemma_inserted_len(sorted.drop_last(), item, key);
        assert(out.drop_last() =~= insert_by_time(sorted.drop_last(), item));
        assert(out.last() == sorted.last());
    } else {
        assert(out.drop_last() =~= sorted);
        assert(out.last() == item);
    }
}

proof fn lemma_group_len(items: Seq<ItemV>, key: Seq<char>)
    ensures
        places_for(items, key).finite(),
        with_key(by_time(items), key).len() == places_for(items, key).len(),
    decreases items.len(),
{
    let all = places_for(items, key);
    if items.len() == 0 {
        assert(all =~= Set::empty());
    } else {
        let before = items.drop_last();
        let last = items.len() - 1;
        lemma_group_len(before, key);
        lemma_inserted_len(by_time(before), items.last(), key);
        lemma_is_for(items.last(), key);
        assert(items[last] == items.last());
        assert forall|n: int| 0 <= n < last implies #[trigger] before[n] == items[n] by {}
        if is_for(items[last], key) {
            assert(all =~= places_for(before, key).insert(last));
        } else {
            assert(all =~= places_for(before, key));
        }
    }
}

/// A group absorbs each write of its record once: it has as many queue ids as there are writes.
pub proof fn law_group_absorbs_each_once(
    items: Seq<ItemV>,
    remap: Map<Seq<char>, Seq<char>>,
    keys: Seq<Seq<char>>,
    groups: Seq<CollapsedV>,
    g: int,
)
    requires
        collapses_to(items, remap, keys, groups),
        0 <= g < groups.len(),
    ensures
        groups[g].ids.len() == places_for(items, keys[g]).len(),
        groups[g].ids.len() > 0,
{
    let own = with_key(by_time(items), keys[g]);
    assert(groups[g] == collapsed_group(own, remap));
    lemma_group_len(items, keys[g]);
}

} // verus!
