//! JSON values as the sync rules read them.
//!
//! A float stands as the bit pattern of its IEEE 754 binary64 value, so that every value here is
//! made of integers, text and collections of them.

use crate::text::same_text;
use vstd::prelude::*;

verus! {

/// A JSON number: a non-negative integer, a negative integer, or a binary64 float by its bits.
#[derive(Clone, Copy, Debug, PartialEq, Eq, Structural)]
pub enum Number {
    PosInt(u64),
    NegInt(i64),
    Float(u64),
}

/// A JSON value.
#[derive(Debug)]
pub enum Json {
    Null,
    Bool(bool),
    Num(Number),
    Str(String),
    Arr(Vec<Json>),
    Obj(Fields),
}

/// The members of a JSON object. Where a name occurs twice, the later member counts.
#[derive(Debug)]
pub struct Fields {
    pub entries: Vec<(String, Json)>,
}

/// What a JSON value is: text as characters, an object as a map.
pub enum JsonV {
    Null,
    Bool(bool),
    Num(Number),
    Str(Seq<char>),
    Arr(Seq<JsonV>),
    Obj(Map<Seq<char>, JsonV>),
}

/// The members of an object, by name.
pub type RowV = Map<Seq<char>, JsonV>;

pub open spec fn json_view(value: Json) -> JsonV
    decreases value,
{
    match value {
        Json::Null => JsonV::Null,
        Json::Bool(b) => JsonV::Bool(b),
        Json::Num(n) => JsonV::Num(n),
        Json::Str(s) => JsonV::Str(s@),
        Json::Arr(items) => JsonV::Arr(items_view(items@)),
        Json::Obj(fields) => JsonV::Obj(entries_view(fields.entries@)),
    }
}

pub open spec fn items_view(items: Seq<Json>) -> Seq<JsonV>
    decreases items,
{
    Seq::new(
        items.len(),
        |i: int|
            if 0 <= i < items.len() {
                json_view(items[i])
            } else {
                JsonV::Null
            },
    )
}

pub open spec fn entries_view(entries: Seq<(String, Json)>) -> RowV
    decreases entries,
{
    if entries.len() == 0 {
        Map::empty()
    } else {
        entries_view(entries.drop_last()).insert(entries.last().0@, json_view(entries.last().1))
    }
}

/// Items the other way round, so that they can be taken off the end in order.
pub fn reversed<T>(items: Vec<T>) -> (out: Vec<T>)
    ensures
        out@ == items@.reverse(),
{
    let ghost all = items@;
    let mut rest = items;
    let mut out: Vec<T> = Vec::new();
    while rest.len() > 0
        invariant
            out@.len() + rest@.len() == all.len(),
            forall|j: int| 0 <= j < rest@.len() ==> #[trigger] rest@[j] == all[j],
            forall|j: int| 0 <= j < out@.len() ==> #[trigger] out@[j] == all[all.len() - 1 - j],
        decreases rest.len(),
    {
        if let Some(item) = rest.pop() {
            out.push(item);
        }
    }
    assert(out@ =~= all.reverse());
    out
}

/// An array's view is the views of its items.
pub proof fn lemma_items_view(items: Seq<Json>)
    ensures
        items_view(items).len() == items.len(),
        forall|i: int| 0 <= i < items.len() ==> #[trigger] items_view(items)[i] == json_view(items[i]),
{
}

impl View for Json {
    type V = JsonV;

    open spec fn view(&self) -> JsonV {
        json_view(*self)
    }
}

impl View for Fields {
    type V = RowV;

    open spec fn view(&self) -> RowV {
        entries_view(self.entries@)
    }
}

/// The member called `name`, if there is one.
pub open spec fn field(row: RowV, name: Seq<char>) -> Option<JsonV> {
    if row.contains_key(name) {
        Some(row[name])
    } else {
        None
    }
}

pub open spec fn json_text(value: JsonV) -> Option<Seq<char>> {
    match value {
        JsonV::Str(s) => Some(s),
        _ => None,
    }
}

pub open spec fn json_bool(value: JsonV) -> Option<bool> {
    match value {
        JsonV::Bool(b) => Some(b),
        _ => None,
    }
}

/// The number as a signed 64-bit integer: integers in range only, never a float.
pub open spec fn json_i64(value: JsonV) -> Option<i64> {
    match value {
        JsonV::Num(Number::PosInt(n)) => if n <= i64::MAX {
            Some(n as i64)
        } else {
            None
        },
        JsonV::Num(Number::NegInt(n)) => Some(n),
        _ => None,
    }
}

/// The number as an unsigned 64-bit integer.
pub open spec fn json_u64(value: JsonV) -> Option<u64> {
    match value {
        JsonV::Num(Number::PosInt(n)) => Some(n),
        _ => None,
    }
}

/// An integer as a JSON value.
pub open spec fn int_json(n: i64) -> JsonV {
    if n < 0 {
        JsonV::Num(Number::NegInt(n))
    } else {
        JsonV::Num(Number::PosInt(n as u64))
    }
}

/// Whether binary64 bits stand for a finite number: the exponent is not all ones.
pub open spec fn finite_bits(bits: u64) -> bool {
    (bits / 0x10_0000_0000_0000) % 0x800 != 0x7ff
}

/// Whether binary64 bits stand for zero, of either sign.
pub open spec fn zero_bits(bits: u64) -> bool {
    bits == 0 || bits == 0x8000_0000_0000_0000
}

/// A float as a JSON value; JSON has no infinity and no not-a-number, those become null.
pub open spec fn float_json(bits: u64) -> JsonV {
    if finite_bits(bits) {
        JsonV::Num(Number::Float(bits))
    } else {
        JsonV::Null
    }
}

pub open spec fn texts_view(texts: Seq<String>) -> Seq<Seq<char>> {
    texts.map_values(|s: String| s@)
}

/// Whether a text is one of some.
pub fn holds_text(texts: &Vec<String>, text: &str) -> (yes: bool)
    ensures
        yes == texts_view(texts@).contains(text@),
{
    let ghost all = texts_view(texts@);
    let mut i: usize = 0;
    while i < texts.len()
        invariant
            i <= texts@.len(),
            all == texts_view(texts@),
            forall|j: int| 0 <= j < i ==> #[trigger] all[j] != text@,
        decreases texts.len() - i,
    {
        assert(all[i as int] == texts@[i as int]@);
        if same_text(texts[i].as_str(), text) {
            return true;
        }
        i = i + 1;
    }
    false
}

/// Texts as a JSON array.
pub open spec fn texts_json(texts: Seq<Seq<char>>) -> JsonV {
    JsonV::Arr(texts.map_values(|s: Seq<char>| JsonV::Str(s)))
}

/// Integer conversion loses nothing.
pub proof fn lemma_int_json_round_trip(n: i64)
    ensures
        json_i64(int_json(n)) == Some(n),
{
}

pub open spec fn row_text(row: RowV, name: Seq<char>) -> Option<Seq<char>> {
    match field(row, name) {
        Some(value) => json_text(value),
        None => None,
    }
}

pub open spec fn row_i64(row: RowV, name: Seq<char>) -> Option<i64> {
    match field(row, name) {
        Some(value) => json_i64(value),
        None => None,
    }
}

pub open spec fn row_bool(row: RowV, name: Seq<char>) -> Option<bool> {
    match field(row, name) {
        Some(value) => json_bool(value),
        None => None,
    }
}

/// Whether a row's `deleted` column is the literal `true`.
pub open spec fn row_deleted(row: RowV) -> bool {
    row_bool(row, "deleted"@) == Some(true)
}

impl Json {
    /// An integer as a JSON value.
    pub fn integer(n: i64) -> (value: Json)
        ensures
            value@ == int_json(n),
    {
        if n < 0 {
            Json::Num(Number::NegInt(n))
        } else {
            Json::Num(Number::PosInt(n as u64))
        }
    }

    /// A float, given by its bits, as a JSON value.
    pub fn float(bits: u64) -> (value: Json)
        ensures
            value@ == float_json(bits),
    {
        if is_finite_bits(bits) {
            Json::Num(Number::Float(bits))
        } else {
            Json::Null
        }
    }

    /// A text as a JSON value.
    pub fn text(s: &str) -> (value: Json)
        ensures
            value@ == JsonV::Str(s@),
    {
        Json::Str(s.to_owned())
    }

    /// A text as a JSON value, or null.
    pub fn text_or_null(s: &Option<String>) -> (value: Json)
        ensures
            value@ == (match *s {
                Some(t) => JsonV::Str(t@),
                None => JsonV::Null,
            }),
    {
        match s {
            Some(t) => Json::Str(t.clone()),
            None => Json::Null,
        }
    }

    /// Texts as a JSON array.
    pub fn texts(items: &Vec<String>) -> (value: Json)
        ensures
            value@ == texts_json(texts_view(items@)),
    {
        let mut out: Vec<Json> = Vec::new();
        let mut i: usize = 0;
        while i < items.len()
            invariant
                i <= items@.len(),
                out@.len() == i,
                forall|j: int| 0 <= j < i ==> json_view(#[trigger] out@[j]) == JsonV::Str(items@[j]@),
            decreases items.len() - i,
        {
            out.push(Json::Str(items[i].clone()));
            i = i + 1;
        }
        proof {
            lemma_items_view(out@);
        }
        assert(items_view(out@) =~= texts_view(items@).map_values(|s: Seq<char>| JsonV::Str(s)));
        Json::Arr(out)
    }

    pub fn is_null(&self) -> (yes: bool)
        ensures
            yes == (self@ == JsonV::Null),
    {
        match self {
            Json::Null => true,
            _ => false,
        }
    }

    pub fn as_str(&self) -> (text: Option<&String>)
        ensures
            match text {
                Some(s) => json_text(self@) == Some(s@),
                None => json_text(self@) is None,
            },
    {
        match self {
            Json::Str(s) => Some(s),
            _ => None,
        }
    }

    pub fn as_bool(&self) -> (b: Option<bool>)
        ensures
            b == json_bool(self@),
    {
        match self {
            Json::Bool(b) => Some(*b),
            _ => None,
        }
    }

    pub fn as_i64(&self) -> (n: Option<i64>)
        ensures
            n == json_i64(self@),
    {
        match self {
            Json::Num(Number::PosInt(n)) => if *n <= i64::MAX as u64 {
                Some(*n as i64)
            } else {
                None
            },
            Json::Num(Number::NegInt(n)) => Some(*n),
            _ => None,
        }
    }

    pub fn as_u64(&self) -> (n: Option<u64>)
        ensures
            n == json_u64(self@),
    {
        match self {
            Json::Num(Number::PosInt(n)) => Some(*n),
            _ => None,
        }
    }

    pub fn as_object(&self) -> (fields: Option<&Fields>)
        ensures
            match fields {
                Some(f) => self@ == JsonV::Obj(f@),
                None => !(self@ is Obj),
            },
    {
        match self {
            Json::Obj(f) => Some(f),
            _ => None,
        }
    }

    pub fn as_array(&self) -> (items: Option<&Vec<Json>>)
        ensures
            match items {
                Some(a) => self@ == JsonV::Arr(items_view(a@)),
                None => !(self@ is Arr),
            },
    {
        match self {
            Json::Arr(a) => Some(a),
            _ => None,
        }
    }

    /// A copy of the whole value.
    pub fn copy(&self) -> (other: Json)
        ensures
            other@ == self@,
        decreases self,
    {
        match self {
            Json::Null => Json::Null,
            Json::Bool(b) => Json::Bool(*b),
            Json::Num(n) => Json::Num(*n),
            Json::Str(s) => Json::Str(s.clone()),
            Json::Arr(items) => {
                let mut out: Vec<Json> = Vec::new();
                let mut i: usize = 0;
                while i < items.len()
                    invariant
                        i <= items@.len(),
                        out@.len() == i,
                        *self == Json::Arr(*items),
                        forall|j: int|
                            0 <= j < i ==> json_view(#[trigger] out@[j]) == json_view(items@[j]),
                    decreases items.len() - i,
                {
                    assert(decreases_to!(*self => self->Arr_0));
                    assert(decreases_to!(*items => items@));
                    assert(decreases_to!(items@ => items@[i as int]));
                    out.push(items[i].copy());
                    i = i + 1;
                }
                proof {
                    lemma_items_view(out@);
                    lemma_items_view(items@);
                }
                assert(items_view(out@) =~= items_view(items@));
                Json::Arr(out)
            },
            Json::Obj(fields) => Json::Obj(fields.copy()),
        }
    }
}

/// Whether binary64 bits stand for a finite number.
pub fn is_finite_bits(bits: u64) -> (yes: bool)
    ensures
        yes == finite_bits(bits),
{
    (bits / 0x10_0000_0000_0000) % 0x800 != 0x7ff
}

/// Whether binary64 bits stand for zero.
pub fn is_zero_bits(bits: u64) -> (yes: bool)
    ensures
        yes == zero_bits(bits),
{
    bits == 0 || bits == 0x8000_0000_0000_0000
}

proof fn lemma_entries_absent(entries: Seq<(String, Json)>, name: Seq<char>)
    requires
        forall|j: int| 0 <= j < entries.len() ==> (#[trigger] entries[j]).0@ != name,
    ensures
        !entries_view(entries).contains_key(name),
    decreases entries.len(),
{
    if entries.len() > 0 {
        assert forall|j: int| 0 <= j < entries.drop_last().len() implies (
        #[trigger] entries.drop_last()[j]).0@ != name by {
            assert(entries.drop_last()[j] == entries[j]);
        }
        lemma_entries_absent(entries.drop_last(), name);
    }
}

proof fn lemma_entries_last_match(entries: Seq<(String, Json)>, name: Seq<char>, i: int)
    requires
        0 <= i < entries.len(),
        entries[i].0@ == name,
        forall|j: int| i < j < entries.len() ==> (#[trigger] entries[j]).0@ != name,
    ensures
        entries_view(entries).contains_key(name),
        entries_view(entries)[name] == json_view(entries[i].1),
    decreases entries.len(),
{
    if i < entries.len() - 1 {
        assert forall|j: int| i < j < entries.drop_last().len() implies (
        #[trigger] entries.drop_last()[j]).0@ != name by {
            assert(entries.drop_last()[j] == entries[j]);
        }
        lemma_entries_last_match(entries.drop_last(), name, i);
    }
}

proof fn lemma_entries_update(
    entries: Seq<(String, Json)>,
    name: Seq<char>,
    i: int,
    entry: (String, Json),
)
    requires
        0 <= i < entries.len(),
        entries[i].0@ == name,
        entry.0@ == name,
        forall|j: int| i < j < entries.len() ==> (#[trigger] entries[j]).0@ != name,
    ensures
        entries_view(entries.update(i, entry)) =~= entries_view(entries).insert(
            name,
            json_view(entry.1),
        ),
    decreases entries.len(),
{
    let updated = entries.update(i, entry);
    if i < entries.len() - 1 {
        assert forall|j: int| i < j < entries.drop_last().len() implies (
        #[trigger] entries.drop_last()[j]).0@ != name by {
            assert(entries.drop_last()[j] == entries[j]);
        }
        lemma_entries_update(entries.drop_last(), name, i, entry);
        assert(updated.drop_last() =~= entries.drop_last().update(i, entry));
        assert(entries[entries.len() - 1].0@ != name);
    } else {
        assert(updated.drop_last() =~= entries.drop_last());
    }
}

proof fn lemma_entries_remove(entries: Seq<(String, Json)>, name: Seq<char>, i: int)
    requires
        0 <= i < entries.len(),
        entries[i].0@ == name,
    ensures
        entries_view(entries.remove(i)).remove(name) =~= entries_view(entries).remove(name),
    decreases entries.len(),
{
    if i < entries.len() - 1 {
        lemma_entries_remove(entries.drop_last(), name, i);
        let removed = entries.remove(i);
        assert(removed.drop_last() =~= entries.drop_last().remove(i));
        assert(removed.last() == entries.last());
        let inner = entries_view(entries.drop_last().remove(i));
        let outer = entries_view(entries.drop_last());
        let last = entries.last();
        assert(inner.remove(name) =~= outer.remove(name));
        assert forall|k: Seq<char>|
            #![trigger inner.contains_key(k)]
            #![trigger outer.contains_key(k)]
            k != name implies (inner.contains_key(k) == outer.contains_key(k)) && (inner.contains_key(k) ==> inner[k] == outer[k]) by {
            assert(inner.remove(name).contains_key(k) == inner.contains_key(k));
            assert(outer.remove(name).contains_key(k) == outer.contains_key(k));
            if inner.contains_key(k) {
                assert(inner.remove(name)[k] == inner[k]);
                assert(outer.remove(name)[k] == outer[k]);
            }
        }
        assert(entries_view(removed) == inner.insert(last.0@, json_view(last.1)));
        assert(entries_view(entries) == outer.insert(last.0@, json_view(last.1)));
        let left = entries_view(removed).remove(name);
        let right = entries_view(entries).remove(name);
        assert forall|k: Seq<char>| left.contains_key(k) == right.contains_key(k) by {
            if k != name && k != last.0@ {
                assert(inner.contains_key(k) == outer.contains_key(k));
            }
        }
        assert forall|k: Seq<char>| left.contains_key(k) implies left[k] == right[k] by {
            if k != last.0@ {
                assert(inner.contains_key(k));
            }
        }
        assert(left.dom() =~= right.dom());
        assert(left =~= right);
    } else {
        assert(entries.remove(i) =~= entries.drop_last());
    }
}

proof fn lemma_entries_push(entries: Seq<(String, Json)>, entry: (String, Json))
    ensures
        entries_view(entries.push(entry)) == entries_view(entries).insert(
            entry.0@,
            json_view(entry.1),
        ),
{
    assert(entries.push(entry).drop_last() =~= entries);
}

impl Fields {
    /// No members.
    pub fn new() -> (fields: Fields)
        ensures
            fields@ == Map::<Seq<char>, JsonV>::empty(),
    {
        Fields { entries: Vec::new() }
    }

    fn position(&self, name: &str) -> (at: Option<usize>)
        ensures
            match at {
                Some(i) => i < self.entries@.len() && self.entries@[i as int].0@ == name@ && (
                forall|j: int|
                    i < j < self.entries@.len() ==> (#[trigger] self.entries@[j]).0@ != name@),
                None => forall|j: int|
                    0 <= j < self.entries@.len() ==> (#[trigger] self.entries@[j]).0@ != name@,
            },
    {
        let mut i: usize = self.entries.len();
        while i > 0
            invariant
                i <= self.entries@.len(),
                forall|j: int|
                    i <= j < self.entries@.len() ==> (#[trigger] self.entries@[j]).0@ != name@,
            decreases i,
        {
            i = i - 1;
            if same_text(self.entries[i].0.as_str(), name) {
                return Some(i);
            }
        }
        None
    }

    /// The member called `name`, if there is one.
    pub fn get(&self, name: &str) -> (value: Option<&Json>)
        ensures
            match value {
                Some(v) => field(self@, name@) == Some(v@),
                None => field(self@, name@) is None,
            },
    {
        match self.position(name) {
            Some(i) => {
                proof {
                    lemma_entries_last_match(self.entries@, name@, i as int);
                }
                Some(&self.entries[i].1)
            },
            None => {
                proof {
                    lemma_entries_absent(self.entries@, name@);
                }
                None
            },
        }
    }

    /// Whether there is a member called `name`.
    pub fn contains(&self, name: &str) -> (yes: bool)
        ensures
            yes == self@.contains_key(name@),
    {
        self.get(name).is_some()
    }

    /// Sets the member called `name`.
    pub fn insert(&mut self, name: &str, value: Json)
        ensures
            final(self)@ == old(self)@.insert(name@, value@),
    {
        match self.position(name) {
            Some(i) => {
                let entry = (name.to_owned(), value);
                proof {
                    lemma_entries_update(self.entries@, name@, i as int, entry);
                }
                self.entries[i] = entry;
            },
            None => {
                let entry = (name.to_owned(), value);
                proof {
                    lemma_entries_push(self.entries@, entry);
                }
                self.entries.push(entry);
            },
        }
    }

    /// Drops the member called `name`, if there is one.
    pub fn remove(&mut self, name: &str)
        ensures
            final(self)@ == old(self)@.remove(name@),
    {
        let mut i: usize = self.entries.len();
        while i > 0
            invariant
                i <= self.entries@.len(),
                forall|j: int|
                    i <= j < self.entries@.len() ==> (#[trigger] self.entries@[j]).0@ != name@,
                entries_view(self.entries@).remove(name@) == old(self)@.remove(name@),
            decreases i,
        {
            i = i - 1;
            if same_text(self.entries[i].0.as_str(), name) {
                proof {
                    lemma_entries_remove(self.entries@, name@, i as int);
                }
                let ghost before = self.entries@;
                self.entries.remove(i);
                assert forall|j: int| i <= j < self.entries@.len() implies (
                #[trigger] self.entries@[j]).0@ != name@ by {
                    assert(self.entries@[j] == before[j + 1]);
                }
            }
        }
        proof {
            lemma_entries_absent(self.entries@, name@);
            assert(entries_view(self.entries@) =~= entries_view(self.entries@).remove(name@));
        }
    }

    /// Sets every member of `other`.
    pub fn merge(&mut self, other: &Fields)
        ensures
            final(self)@ == old(self)@.union_prefer_right(other@),
    {
        let mut i: usize = 0;
        assert(other.entries@.take(0) =~= Seq::empty());
        assert(self@ =~= self@.union_prefer_right(entries_view(other.entries@.take(0))));
        while i < other.entries.len()
            invariant
                i <= other.entries@.len(),
                self@ == old(self)@.union_prefer_right(entries_view(other.entries@.take(i as int))),
            decreases other.entries.len() - i,
        {
            proof {
                assert(other.entries@.take(i + 1).drop_last() =~= other.entries@.take(i as int));
            }
            let ghost before = self@;
            self.insert(other.entries[i].0.as_str(), other.entries[i].1.copy());
            assert(self@ =~= old(self)@.union_prefer_right(
                entries_view(other.entries@.take(i + 1)),
            ));
            i = i + 1;
        }
        assert(other.entries@.take(other.entries@.len() as int) =~= other.entries@);
    }

    /// The integer member called `name`.
    pub fn get_i64(&self, name: &str) -> (n: Option<i64>)
        ensures
            n == row_i64(self@, name@),
    {
        match self.get(name) {
            Some(value) => value.as_i64(),
            None => None,
        }
    }

    /// The boolean member called `name`.
    pub fn get_bool(&self, name: &str) -> (b: Option<bool>)
        ensures
            b == row_bool(self@, name@),
    {
        match self.get(name) {
            Some(value) => value.as_bool(),
            None => None,
        }
    }

    /// The text member called `name`.
    pub fn get_text(&self, name: &str) -> (text: Option<&String>)
        ensures
            match text {
                Some(s) => row_text(self@, name@) == Some(s@),
                None => row_text(self@, name@) is None,
            },
    {
        match self.get(name) {
            Some(value) => value.as_str(),
            None => None,
        }
    }

    /// Whether the `deleted` column is the literal `true`.
    pub fn is_deleted(&self) -> (yes: bool)
        ensures
            yes == row_deleted(self@),
    {
        match self.get_bool("deleted") {
            Some(b) => b,
            None => false,
        }
    }

    /// A copy of all members.
    pub fn copy(&self) -> (other: Fields)
        ensures
            other@ == self@,
        decreases self,
    {
        let mut out: Vec<(String, Json)> = Vec::new();
        let mut i: usize = 0;
        assert(self.entries@.take(0) =~= out@);
        while i < self.entries.len()
            invariant
                i <= self.entries@.len(),
                entries_view(out@) == entries_view(self.entries@.take(i as int)),
            decreases self.entries.len() - i,
        {
            assert(decreases_to!(self => self.entries@[i as int].1));
            let entry = (self.entries[i].0.clone(), self.entries[i].1.copy());
            proof {
                lemma_entries_push(out@, entry);
                assert(self.entries@.take(i + 1).drop_last() =~= self.entries@.take(i as int));
            }
            out.push(entry);
            i = i + 1;
        }
        assert(self.entries@.take(self.entries@.len() as int) =~= self.entries@);
        Fields { entries: out }
    }
}

} // verus!
