//! JSON values as plain data, and the text they are read from and written to.

use crate::text::text_equals;
use vstd::prelude::*;

verus! {

/// A JSON value. The entries of an object stand in the order in which they were put there.
#[derive(Debug)]
pub enum Json {
    Null,
    Bool(bool),
    Unsigned(u64),
    Negative(i64),
    /// A number that is no 64-bit integer, in its textual form.
    Fraction(String),
    Text(String),
    List(Vec<Json>),
    Object(Vec<(String, Json)>),
}

/// What a `Json` value stands for.
pub enum JsonView {
    Null,
    Bool(bool),
    Unsigned(u64),
    Negative(i64),
    Fraction(Seq<char>),
    Text(Seq<char>),
    List(Seq<JsonView>),
    Object(Seq<(Seq<char>, JsonView)>),
}

impl Json {
    pub open spec fn view(&self) -> JsonView
        decreases self,
    {
        match self {
            Json::Null => JsonView::Null,
            Json::Bool(b) => JsonView::Bool(*b),
            Json::Unsigned(n) => JsonView::Unsigned(*n),
            Json::Negative(n) => JsonView::Negative(*n),
            Json::Fraction(s) => JsonView::Fraction(s@),
            Json::Text(s) => JsonView::Text(s@),
            Json::List(items) => JsonView::List(
                Seq::new(
                    items@.len(),
                    |i: int|
                        if 0 <= i < items@.len() {
                            items@[i].view()
                        } else {
                            JsonView::Null
                        },
                ),
            ),
            Json::Object(entries) => JsonView::Object(
                Seq::new(
                    entries@.len(),
                    |i: int|
                        if 0 <= i < entries@.len() {
                            (entries@[i].0@, entries@[i].1.view())
                        } else {
                            (Seq::empty(), JsonView::Null)
                        },
                ),
            ),
        }
    }
}

/// Whether no key of an object occurs twice.
pub open spec fn keys_distinct(entries: Seq<(Seq<char>, JsonView)>) -> bool {
    forall|i: int, j: int|
        0 <= i < j < entries.len() ==> (#[trigger] entries[i]).0 != (#[trigger] entries[j]).0
}

/// Whether no object in `value` has a key twice.
pub open spec fn unambiguous(value: JsonView) -> bool
    decreases value,
{
    match value {
        JsonView::List(items) => forall|i: int|
            0 <= i < items.len() ==> unambiguous(#[trigger] items[i]),
        JsonView::Object(entries) => keys_distinct(entries) && forall|i: int|
            0 <= i < entries.len() ==> unambiguous((#[trigger] entries[i]).1),
        _ => true,
    }
}

/// Whether `value` is nested at most `depth` deep, holds no number but 64-bit integers, and has no
/// key of an object twice.
pub open spec fn plain(value: JsonView, depth: nat) -> bool
    decreases value,
{
    match value {
        JsonView::Null => true,
        JsonView::Bool(_) => true,
        JsonView::Unsigned(_) => true,
        JsonView::Negative(n) => n < 0,
        JsonView::Fraction(_) => false,
        JsonView::Text(_) => true,
        JsonView::List(items) => depth > 0 && forall|i: int|
            0 <= i < items.len() ==> plain(#[trigger] items[i], (depth - 1) as nat),
        JsonView::Object(entries) => depth > 0 && keys_distinct(entries) && forall|i: int|
            0 <= i < entries.len() ==> plain((#[trigger] entries[i]).1, (depth - 1) as nat),
    }
}

/// The value of the entry under `key`, where `value` is an object that has one.
pub open spec fn field(value: JsonView, key: Seq<char>) -> Option<JsonView> {
    match value {
        JsonView::Object(entries) => entry(entries, key),
        _ => None,
    }
}

/// The value of the first entry under `key`.
pub open spec fn entry(entries: Seq<(Seq<char>, JsonView)>, key: Seq<char>) -> Option<JsonView>
    decreases entries.len(),
{
    if entries.len() == 0 {
        None
    } else if entries[0].0 == key {
        Some(entries[0].1)
    } else {
        entry(entries.subrange(1, entries.len() as int), key)
    }
}

/// The text under `key`, where `value` is an object that has text there.
pub open spec fn text_field(value: JsonView, key: Seq<char>) -> Option<Seq<char>> {
    match field(value, key) {
        Some(JsonView::Text(s)) => Some(s),
        _ => None,
    }
}

impl Json {
    /// The value of the entry under `key`, where this is an object that has one.
    pub fn get(&self, key: &str) -> (result: Option<&Json>)
        ensures
            match result {
                Some(value) => field(self@, key@) == Some(value@),
                None => field(self@, key@) == None::<JsonView>,
            },
    {
        match self {
            Json::Object(entries) => {
                let mut i: usize = 0;
                let ghost all = self@->Object_0;
                assert(all.subrange(0, all.len() as int) =~= all);
                while i < entries.len()
                    invariant
                        i <= entries.len(),
                        self@ == JsonView::Object(all),
                        all.len() == entries.len(),
                        self == Json::Object(*entries),
                        forall|j: int|
                            0 <= j < all.len() ==> #[trigger] all[j] == (
                                entries@[j].0@,
                                entries@[j].1@,
                            ),
                        entry(all, key@) == entry(all.subrange(i as int, all.len() as int), key@),
                    decreases entries.len() - i,
                {
                    let ghost rest = all.subrange(i as int, all.len() as int);
                    assert(rest[0] == all[i as int]);
                    assert(rest.subrange(1, rest.len() as int) =~= all.subrange(
                        i + 1,
                        all.len() as int,
                    ));
                    if text_equals(entries[i].0.as_str(), key) {
                        return Some(&entries[i].1);
                    }
                    i = i + 1;
                }
                None
            },
            _ => None,
        }
    }

    /// The text under `key`, where this is an object that has text there.
    pub fn get_text(&self, key: &str) -> (result: Option<&String>)
        ensures
            match result {
                Some(value) => text_field(self@, key@) == Some(value@),
                None => text_field(self@, key@) == None::<Seq<char>>,
            },
    {
        match self.get(key) {
            Some(Json::Text(s)) => Some(s),
            _ => None,
        }
    }

    /// Copies a value.
    pub fn copy(&self) -> (result: Json)
        ensures
            result@ == self@,
        decreases self,
    {
        match self {
            Json::Null => Json::Null,
            Json::Bool(b) => Json::Bool(*b),
            Json::Unsigned(n) => Json::Unsigned(*n),
            Json::Negative(n) => Json::Negative(*n),
            Json::Fraction(s) => Json::Fraction(s.clone()),
            Json::Text(s) => Json::Text(s.clone()),
            Json::List(items) => {
                let mut out: Vec<Json> = Vec::new();
                let mut i: usize = 0;
                while i < items.len()
                    invariant
                        i <= items.len(),
                        out.len() == i,
                        self == Json::List(*items),
                        forall|j: int| 0 <= j < i ==> (#[trigger] out@[j])@ == items@[j]@,
                    decreases items.len() - i,
                {
                    proof {
                        assert(decreases_to!(self => self->List_0));
                        assert(decreases_to!(self->List_0 => self->List_0@));
                        assert(decreases_to!(self->List_0@ => self->List_0@[i as int]));
                    }
                    let item = items[i].copy();
                    out.push(item);
                    i = i + 1;
                }
                let result = Json::List(out);
                assert(result@->List_0 =~= self@->List_0);
                result
            },
            Json::Object(entries) => {
                let mut out: Vec<(String, Json)> = Vec::new();
                let mut i: usize = 0;
                while i < entries.len()
                    invariant
                        i <= entries.len(),
                        out.len() == i,
                        self == Json::Object(*entries),
                        forall|j: int|
                            0 <= j < i ==> (#[trigger] out@[j]).0@ == entries@[j].0@
                                && out@[j].1@ == entries@[j].1@,
                    decreases entries.len() - i,
                {
                    proof {
                        assert(decreases_to!(self => self->Object_0));
                        assert(decreases_to!(self->Object_0 => self->Object_0@));
                        assert(decreases_to!(self->Object_0@ => self->Object_0@[i as int]));
                        assert(decreases_to!(self->Object_0@[i as int] => self->Object_0@[i as int].1));
                    }
                    let item = entries[i].1.copy();
                    out.push((entries[i].0.clone(), item));
                    i = i + 1;
                }
                let result = Json::Object(out);
                assert(result@->Object_0 =~= self@->Object_0);
                result
            },
        }
    }
}

/// The values of a list of `Json`.
pub open spec fn json_views(items: Seq<Json>) -> Seq<JsonView> {
    Seq::new(items.len(), |i: int| items[i]@)
}

/// A list of values.
pub fn list(items: Vec<Json>) -> (result: Json)
    ensures
        result@ == JsonView::List(json_views(items@)),
        result == Json::List(items),
{
    let result = Json::List(items);
    assert(result@->List_0 =~= json_views(items@));
    result
}

/// A text.
pub fn text_json(text: &str) -> (result: Json)
    ensures
        result@ == JsonView::Text(text@),
{
    Json::Text(text.to_owned())
}

/// An object of one entry.
pub fn object1(key: &str, value: Json) -> (result: Json)
    ensures
        result@ == JsonView::Object(seq![(key@, value@)]),
{
    let mut entries: Vec<(String, Json)> = Vec::new();
    entries.push((key.to_owned(), value));
    let result = Json::Object(entries);
    assert(result@->Object_0 =~= seq![(key@, value@)]);
    result
}

/// An object of two entries.
pub fn object2(key0: &str, value0: Json, key1: &str, value1: Json) -> (result: Json)
    ensures
        result@ == JsonView::Object(seq![(key0@, value0@), (key1@, value1@)]),
{
    let mut entries: Vec<(String, Json)> = Vec::new();
    entries.push((key0.to_owned(), value0));
    entries.push((key1.to_owned(), value1));
    let result = Json::Object(entries);
    assert(result@->Object_0 =~= seq![(key0@, value0@), (key1@, value1@)]);
    result
}

/// An object of three entries.
pub fn object3(
    key0: &str,
    value0: Json,
    key1: &str,
    value1: Json,
    key2: &str,
    value2: Json,
) -> (result: Json)
    ensures
        result@ == JsonView::Object(seq![(key0@, value0@), (key1@, value1@), (key2@, value2@)]),
{
    let mut entries: Vec<(String, Json)> = Vec::new();
    entries.push((key0.to_owned(), value0));
    entries.push((key1.to_owned(), value1));
    entries.push((key2.to_owned(), value2));
    let result = Json::Object(entries);
    assert(result@->Object_0 =~= seq![(key0@, value0@), (key1@, value1@), (key2@, value2@)]);
    result
}

/// Whether one of `entries` stands under `key`.
pub open spec fn has_key(entries: Seq<(Seq<char>, JsonView)>, key: Seq<char>) -> bool {
    exists|i: int| 0 <= i < entries.len() && (#[trigger] entries[i]).0 == key
}

/// Whether the keys of `entries` are exactly `names`.
pub open spec fn keys_are(entries: Seq<(Seq<char>, JsonView)>, names: Seq<Seq<char>>) -> bool {
    &&& forall|i: int| 0 <= i < entries.len() ==> names.contains((#[trigger] entries[i]).0)
    &&& forall|j: int| 0 <= j < names.len() ==> has_key(entries, #[trigger] names[j])
}

/// An entry under `key` is found exactly where one stands.
pub proof fn lemma_entry(entries: Seq<(Seq<char>, JsonView)>, key: Seq<char>)
    ensures
        entry(entries, key) is Some <==> has_key(entries, key),
    decreases entries.len(),
{
    if entries.len() > 0 && entries[0].0 != key {
        let rest = entries.subrange(1, entries.len() as int);
        lemma_entry(rest, key);
        if has_key(rest, key) {
            let i = choose|i: int| 0 <= i < rest.len() && (#[trigger] rest[i]).0 == key;
            assert(entries[i + 1].0 == key);
        }
        if has_key(entries, key) {
            let i = choose|i: int| 0 <= i < entries.len() && (#[trigger] entries[i]).0 == key;
            assert(rest[i - 1].0 == key);
        }
    } else if entries.len() > 0 {
        assert(entries[0].0 == key);
    }
}

/// An object of three entries under distinct keys has each of them, and no others.
pub proof fn lemma_three_entries(
    key0: Seq<char>,
    value0: JsonView,
    key1: Seq<char>,
    value1: JsonView,
    key2: Seq<char>,
    value2: JsonView,
)
    requires
        key0 != key1,
        key0 != key2,
        key1 != key2,
    ensures
        ({
            let entries = seq![(key0, value0), (key1, value1), (key2, value2)];
            &&& entry(entries, key0) == Some(value0)
            &&& entry(entries, key1) == Some(value1)
            &&& entry(entries, key2) == Some(value2)
            &&& keys_are(entries, seq![key0, key1, key2])
        }),
{
    let entries = seq![(key0, value0), (key1, value1), (key2, value2)];
    let tail = entries.subrange(1, 3);
    let last = tail.subrange(1, 2);
    assert(tail[0] == (key1, value1));
    assert(last[0] == (key2, value2));
    assert(entry(last, key2) == Some(value2));
    assert(entry(tail, key1) == Some(value1));
    assert(entry(tail, key2) == Some(value2));
    let names = seq![key0, key1, key2];
    assert(entries[0].0 == key0 && entries[1].0 == key1 && entries[2].0 == key2);
    assert(names[0] == key0 && names[1] == key1 && names[2] == key2);
    assert forall|i: int| 0 <= i < entries.len() implies names.contains((#[trigger] entries[i]).0) by {
        assert(entries[i].0 == names[i]);
    }
    assert forall|j: int| 0 <= j < names.len() implies has_key(entries, #[trigger] names[j]) by {
        assert(entries[j].0 == names[j]);
    }
}

/// `entries` with the value of the first entry under `key` replaced.
pub open spec fn with_entry(
    entries: Seq<(Seq<char>, JsonView)>,
    key: Seq<char>,
    value: JsonView,
) -> Seq<(Seq<char>, JsonView)>
    decreases entries.len(),
{
    if entries.len() == 0 {
        entries
    } else if entries[0].0 == key {
        entries.update(0, (key, value))
    } else {
        seq![entries[0]] + with_entry(entries.subrange(1, entries.len() as int), key, value)
    }
}

/// `target` with the value under `key` replaced, where it is an object that has one there.
pub open spec fn with_field(target: JsonView, key: Seq<char>, value: JsonView) -> JsonView {
    match target {
        JsonView::Object(entries) => JsonView::Object(with_entry(entries, key, value)),
        _ => target,
    }
}

proof fn lemma_with_entry_at(
    entries: Seq<(Seq<char>, JsonView)>,
    key: Seq<char>,
    value: JsonView,
    at: int,
)
    requires
        0 <= at < entries.len(),
        entries[at].0 == key,
        forall|j: int| 0 <= j < at ==> (#[trigger] entries[j]).0 != key,
    ensures
        with_entry(entries, key, value) == entries.update(at, (key, value)),
    decreases at,
{
    if at > 0 {
        let rest = entries.subrange(1, entries.len() as int);
        assert(entries[0].0 != key);
        assert forall|j: int| 0 <= j < at - 1 implies (#[trigger] rest[j]).0 != key by {
            assert(entries[j + 1].0 != key);
        }
        lemma_with_entry_at(rest, key, value, at - 1);
        assert(seq![entries[0]] + rest.update(at - 1, (key, value)) =~= entries.update(
            at,
            (key, value),
        ));
    }
}

proof fn lemma_with_entry_absent(
    entries: Seq<(Seq<char>, JsonView)>,
    key: Seq<char>,
    value: JsonView,
)
    requires
        !has_key(entries, key),
    ensures
        with_entry(entries, key, value) == entries,
    decreases entries.len(),
{
    if entries.len() > 0 {
        let rest = entries.subrange(1, entries.len() as int);
        assert(entries[0].0 != key);
        assert(!has_key(rest, key)) by {
            if has_key(rest, key) {
                let i = choose|i: int| 0 <= i < rest.len() && (#[trigger] rest[i]).0 == key;
                assert(entries[i + 1].0 == key);
            }
        }
        lemma_with_entry_absent(rest, key, value);
        assert(seq![entries[0]] + rest =~= entries);
    }
}

/// Reading what an entry was replaced by gives it back, and replacing it by the same again changes
/// nothing.
pub proof fn lemma_with_entry_read(
    entries: Seq<(Seq<char>, JsonView)>,
    key: Seq<char>,
    value: JsonView,
)
    requires
        entry(entries, key) is Some,
    ensures
        entry(with_entry(entries, key, value), key) == Some(value),
        with_entry(with_entry(entries, key, value), key, value) == with_entry(entries, key, value),
    decreases entries.len(),
{
    let after = with_entry(entries, key, value);
    if entries.len() > 0 {
        if entries[0].0 == key {
            assert(after[0] == (key, value));
            assert(after.update(0, (key, value)) =~= after);
        } else {
            let rest = entries.subrange(1, entries.len() as int);
            lemma_with_entry_read(rest, key, value);
            assert(after.subrange(1, after.len() as int) =~= with_entry(rest, key, value));
            assert(after[0] == entries[0]);
        }
    }
}

/// Of two replacements of an entry the last counts, and replacing an entry by what it holds
/// changes nothing.
pub proof fn lemma_with_entry_back(
    entries: Seq<(Seq<char>, JsonView)>,
    key: Seq<char>,
    between: JsonView,
    value: JsonView,
)
    ensures
        with_entry(with_entry(entries, key, between), key, value) == with_entry(
            entries,
            key,
            value,
        ),
        entry(entries, key) == Some(value) ==> with_entry(entries, key, value) == entries,
    decreases entries.len(),
{
    let after = with_entry(entries, key, between);
    if entries.len() > 0 {
        let rest = entries.subrange(1, entries.len() as int);
        if entries[0].0 == key {
            assert(after[0] == (key, between));
            assert(after.update(0, (key, value)) =~= entries.update(0, (key, value)));
            assert(entries[0].1 == value ==> entries.update(0, (key, value)) =~= entries);
        } else {
            lemma_with_entry_back(rest, key, between, value);
            assert(after.subrange(1, after.len() as int) =~= with_entry(rest, key, between));
            assert(after[0] == entries[0]);
            assert(seq![entries[0]] + rest =~= entries);
        }
    }
}

/// Replacing an entry changes no other entry and no key.
pub proof fn lemma_with_entry_other(
    entries: Seq<(Seq<char>, JsonView)>,
    key: Seq<char>,
    value: JsonView,
    other: Seq<char>,
)
    requires
        other != key,
    ensures
        entry(with_entry(entries, key, value), other) == entry(entries, other),
        with_entry(entries, key, value).len() == entries.len(),
        forall|i: int|
            0 <= i < entries.len() ==> (#[trigger] with_entry(entries, key, value)[i]).0
                == entries[i].0,
    decreases entries.len(),
{
    let after = with_entry(entries, key, value);
    if entries.len() > 0 {
        let rest = entries.subrange(1, entries.len() as int);
        if entries[0].0 == key {
            assert(after.subrange(1, after.len() as int) =~= rest);
        } else {
            lemma_with_entry_other(rest, key, value, other);
            assert(after.subrange(1, after.len() as int) =~= with_entry(rest, key, value));
            assert forall|i: int| 0 <= i < entries.len() implies (#[trigger] after[i]).0
                == entries[i].0 by {
                if i > 0 {
                    assert(after[i] == with_entry(rest, key, value)[i - 1]);
                    assert(rest[i - 1] == entries[i]);
                }
            }
        }
    }
}

impl Json {
    /// This value with the value under `key` replaced, where it is an object that has one there.
    pub fn replacing(&self, key: &str, value: Json) -> (result: Json)
        ensures
            result@ == with_field(self@, key@, value@),
    {
        match self {
            Json::Object(entries) => {
                let ghost all = self@->Object_0;
                let mut out: Vec<(String, Json)> = Vec::new();
                let mut replacement: Option<Json> = Some(value);
                let mut i: usize = 0;
                let ghost mut at: int = -1;
                while i < entries.len()
                    invariant
                        i <= entries.len(),
                        out.len() == i,
                        self == Json::Object(*entries),
                        self@ == JsonView::Object(all),
                        all.len() == entries.len(),
                        forall|j: int|
                            0 <= j < all.len() ==> #[trigger] all[j] == (
                                entries@[j].0@,
                                entries@[j].1@,
                            ),
                        -1 <= at < i,
                        at == -1 <==> replacement is Some,
                        replacement is Some ==> replacement->0 == value,
                        at >= 0 ==> all[at].0 == key@,
                        forall|j: int|
                            0 <= j < i && (at == -1 || j < at) ==> (#[trigger] all[j]).0 != key@,
                        forall|j: int|
                            0 <= j < i ==> ((#[trigger] out@[j]).0@, out@[j].1@) == (if j == at {
                                (key@, value@)
                            } else {
                                all[j]
                            }),
                    decreases entries.len() - i,
                {
                    assert(all[i as int] == (entries@[i as int].0@, entries@[i as int].1@));
                    if replacement.is_some() && text_equals(entries[i].0.as_str(), key) {
                        let taken = replacement.take();
                        if let Some(new_value) = taken {
                            out.push((key.to_owned(), new_value));
                            proof {
                                at = i as int;
                            }
                        }
                    } else {
                        out.push((entries[i].0.clone(), entries[i].1.copy()));
                    }
                    i = i + 1;
                }
                let result = Json::Object(out);
                proof {
                    if at >= 0 {
                        lemma_with_entry_at(all, key@, value@, at);
                        assert(result@->Object_0 =~= all.update(at, (key@, value@)));
                    } else {
                        assert(!has_key(all, key@));
                        lemma_with_entry_absent(all, key@, value@);
                        assert(result@->Object_0 =~= all);
                    }
                }
                result
            },
            _ => self.copy(),
        }
    }

    /// Whether this is an object whose keys are exactly `names`.
    pub fn has_exact_keys(&self, names: &Vec<String>) -> (result: bool)
        ensures
            result == (self@ is Object && keys_are(self@->Object_0, crate::text::texts(names@))),
    {
        match self {
            Json::Object(entries) => {
                let ghost all = self@->Object_0;
                let ghost wanted = crate::text::texts(names@);
                let mut i: usize = 0;
                while i < entries.len()
                    invariant
                        i <= entries.len(),
                        self == Json::Object(*entries),
                        self@ == JsonView::Object(all),
                        all.len() == entries.len(),
                        wanted == crate::text::texts(names@),
                        forall|j: int|
                            0 <= j < all.len() ==> #[trigger] all[j] == (
                                entries@[j].0@,
                                entries@[j].1@,
                            ),
                        forall|j: int| 0 <= j < i ==> wanted.contains((#[trigger] all[j]).0),
                    decreases entries.len() - i,
                {
                    let known = crate::text::contains_text(names, entries[i].0.as_str());
                    proof {
                        assert(all[i as int].0 == entries@[i as int].0@);
                        if known {
                            let k = choose|k: int|
                                0 <= k < names@.len() && (#[trigger] names@[k])@
                                    == entries@[i as int].0@;
                            assert(wanted[k] == all[i as int].0);
                        } else if wanted.contains(all[i as int].0) {
                            let k = choose|k: int|
                                0 <= k < wanted.len() && wanted[k] == all[i as int].0;
                            assert(names@[k]@ == entries@[i as int].0@);
                        }
                    }
                    if !known {
                        return false;
                    }
                    i = i + 1;
                }
                let mut n: usize = 0;
                while n < names.len()
                    invariant
                        n <= names.len(),
                        self@ == JsonView::Object(all),
                        wanted == crate::text::texts(names@),
                        forall|j: int| 0 <= j < n ==> has_key(all, #[trigger] wanted[j]),
                    decreases names.len() - n,
                {
                    proof {
                        lemma_entry(all, wanted[n as int]);
                        assert(wanted[n as int] == names@[n as int]@);
                    }
                    if self.get(names[n].as_str()).is_none() {
                        return false;
                    }
                    n = n + 1;
                }
                true
            },
            _ => false,
        }
    }
}

/// Whether a number in its textual form is a zero, of either sign.
pub open spec fn is_zero(number: Seq<char>) -> bool {
    number == "0.0"@ || number == "-0.0"@
}

/// Whether two values are the same. The order of an object's entries does not count, nor does the
/// sign of a zero.
pub open spec fn same_json(a: JsonView, b: JsonView) -> bool
    decreases a,
{
    match (a, b) {
        (JsonView::Fraction(x), JsonView::Fraction(y)) => x == y || (is_zero(x) && is_zero(y)),
        (JsonView::List(x), JsonView::List(y)) => x.len() == y.len() && forall|i: int|
            0 <= i < x.len() ==> same_json(#[trigger] x[i], y[i]),
        (JsonView::Object(x), JsonView::Object(y)) => x.len() == y.len() && forall|i: int|
            0 <= i < x.len() ==> entry(y, (#[trigger] x[i]).0) is Some && same_json(
                x[i].1,
                entry(y, x[i].0)->0,
            ),
        _ => a == b,
    }
}

/// In an object no key of which occurs twice, the entry under a key is the one that stands there.
pub proof fn lemma_entry_at(entries: Seq<(Seq<char>, JsonView)>, at: int)
    requires
        keys_distinct(entries),
        0 <= at < entries.len(),
    ensures
        entry(entries, entries[at].0) == Some(entries[at].1),
    decreases entries.len(),
{
    if at > 0 {
        let rest = entries.subrange(1, entries.len() as int);
        assert(entries[0].0 != entries[at].0);
        assert forall|i: int, j: int| 0 <= i < j < rest.len() implies (#[trigger] rest[i]).0 != (
        #[trigger] rest[j]).0 by {
            assert(entries[i + 1].0 != entries[j + 1].0);
        }
        lemma_entry_at(rest, at - 1);
    }
}

/// A value is the same as itself.
pub proof fn lemma_same_json(value: JsonView)
    requires
        unambiguous(value),
    ensures
        same_json(value, value),
    decreases value,
{
    match value {
        JsonView::List(items) => {
            assert forall|i: int| 0 <= i < items.len() implies same_json(
                #[trigger] items[i],
                items[i],
            ) by {
                lemma_same_json(items[i]);
            }
        },
        JsonView::Object(entries) => {
            assert forall|i: int| 0 <= i < entries.len() implies entry(
                entries,
                (#[trigger] entries[i]).0,
            ) is Some && same_json(entries[i].1, entry(entries, entries[i].0)->0) by {
                lemma_entry_at(entries, i);
                lemma_same_json(entries[i].1);
            }
        },
        _ => {},
    }
}

fn is_zero_text(number: &str) -> (result: bool)
    ensures
        result == is_zero(number@),
{
    text_equals(number, "0.0") || text_equals(number, "-0.0")
}

impl Json {
    /// Whether two values are the same.
    pub fn equals(&self, other: &Json) -> (result: bool)
        ensures
            result == same_json(self@, other@),
        decreases self,
    {
        match (self, other) {
            (Json::Null, Json::Null) => true,
            (Json::Bool(a), Json::Bool(b)) => *a == *b,
            (Json::Unsigned(a), Json::Unsigned(b)) => *a == *b,
            (Json::Negative(a), Json::Negative(b)) => *a == *b,
            (Json::Fraction(a), Json::Fraction(b)) => text_equals(a.as_str(), b.as_str()) || (
            is_zero_text(a.as_str()) && is_zero_text(b.as_str())),
            (Json::Text(a), Json::Text(b)) => text_equals(a.as_str(), b.as_str()),
            (Json::List(a), Json::List(b)) => {
                let ghost x = self@->List_0;
                let ghost y = other@->List_0;
                if a.len() != b.len() {
                    return false;
                }
                let mut i: usize = 0;
                while i < a.len()
                    invariant
                        i <= a.len(),
                        a.len() == b.len(),
                        self == Json::List(*a),
                        other == Json::List(*b),
                        self@ == JsonView::List(x),
                        other@ == JsonView::List(y),
                        x.len() == a.len(),
                        y.len() == b.len(),
                        forall|j: int| 0 <= j < i ==> same_json(#[trigger] x[j], y[j]),
                    decreases a.len() - i,
                {
                    proof {
                        assert(decreases_to!(self => self->List_0));
                        assert(decreases_to!(self->List_0 => self->List_0@));
                        assert(decreases_to!(self->List_0@ => self->List_0@[i as int]));
                        assert(x[i as int] == a@[i as int]@);
                        assert(y[i as int] == b@[i as int]@);
                    }
                    if !a[i].equals(&b[i]) {
                        return false;
                    }
                    i = i + 1;
                }
                true
            },
            (Json::Object(a), Json::Object(b)) => {
                let ghost x = self@->Object_0;
                let ghost y = other@->Object_0;
                if a.len() != b.len() {
                    return false;
                }
                let mut i: usize = 0;
                while i < a.len()
                    invariant
                        i <= a.len(),
                        a.len() == b.len(),
                        self == Json::Object(*a),
                        self@ == JsonView::Object(x),
                        other@ == JsonView::Object(y),
                        x.len() == a.len(),
                        y.len() == b.len(),
                        forall|j: int|
                            0 <= j < i ==> entry(y, (#[trigger] x[j]).0) is Some && same_json(
                                x[j].1,
                                entry(y, x[j].0)->0,
                            ),
                    decreases a.len() - i,
                {
                    proof {
                        assert(decreases_to!(self => self->Object_0));
                        assert(decreases_to!(self->Object_0 => self->Object_0@));
                        assert(decreases_to!(self->Object_0@ => self->Object_0@[i as int]));
                        assert(decreases_to!(self->Object_0@[i as int] => self->Object_0@[i as int].1));
                        assert(x[i as int] == (a@[i as int].0@, a@[i as int].1@));
                    }
                    let same = match other.get(a[i].0.as_str()) {
                        Some(value) => a[i].1.equals(value),
                        None => false,
                    };
                    if !same {
                        return false;
                    }
                    i = i + 1;
                }
                true
            },
            _ => false,
        }
    }
}

/// `entries` with `value` under `key`: in place of what stands there, or else at the end.
pub open spec fn put_entry(
    entries: Seq<(Seq<char>, JsonView)>,
    key: Seq<char>,
    value: JsonView,
) -> Seq<(Seq<char>, JsonView)> {
    if has_key(entries, key) {
        with_entry(entries, key, value)
    } else {
        entries.push((key, value))
    }
}

/// `target` with `value` under `key`, where it is an object.
pub open spec fn put_field(target: JsonView, key: Seq<char>, value: JsonView) -> JsonView {
    match target {
        JsonView::Object(entries) => JsonView::Object(put_entry(entries, key, value)),
        _ => target,
    }
}

proof fn lemma_entry_pushed(
    entries: Seq<(Seq<char>, JsonView)>,
    key: Seq<char>,
    value: JsonView,
    other: Seq<char>,
)
    ensures
        entry(entries.push((key, value)), other) == match entry(entries, other) {
            Some(found) => Some(found),
            None => if other == key {
                Some(value)
            } else {
                None
            },
        },
    decreases entries.len(),
{
    let after = entries.push((key, value));
    if entries.len() == 0 {
        assert(after.subrange(1, 1) =~= entries);
        assert(entry(entries, other) is None);
    } else {
        let rest = entries.subrange(1, entries.len() as int);
        lemma_entry_pushed(rest, key, value, other);
        assert(after.subrange(1, after.len() as int) =~= rest.push((key, value)));
        assert(after[0] == entries[0]);
    }
}

/// Reading what was put under a key gives it back, and nothing else changes.
pub proof fn lemma_put_entry(
    entries: Seq<(Seq<char>, JsonView)>,
    key: Seq<char>,
    value: JsonView,
    other: Seq<char>,
)
    ensures
        entry(put_entry(entries, key, value), other) == if other == key {
            Some(value)
        } else {
            entry(entries, other)
        },
{
    lemma_entry(entries, key);
    if has_key(entries, key) {
        if other == key {
            lemma_with_entry_read(entries, key, value);
        } else {
            lemma_with_entry_other(entries, key, value, other);
        }
    } else {
        lemma_entry_pushed(entries, key, value, other);
    }
}

impl Json {
    /// This value with `value` under `key`, where it is an object.
    pub fn putting(&self, key: &str, value: Json) -> (result: Json)
        ensures
            result@ == put_field(self@, key@, value@),
    {
        if self.get(key).is_some() {
            proof {
                lemma_entry(self@->Object_0, key@);
            }
            return self.replacing(key, value);
        }
        match self.copy() {
            Json::Object(entries) => {
                let ghost all = self@->Object_0;
                let mut out = entries;
                out.push((key.to_owned(), value));
                let result = Json::Object(out);
                proof {
                    lemma_entry(all, key@);
                    assert(Json::Object(entries)@->Object_0 == all);
                    assert(result@->Object_0 =~= all.push((key@, value@)));
                }
                result
            },
            other => other,
        }
    }
}

/// The values of `serde_json`.
#[verifier::external_type_specification]
#[verifier::external_body]
pub struct ExValue(serde_json::Value);

/// What `serde_json::from_str` reads from a text: the value, or the message of its error.
pub uninterp spec fn json_parsed(text: Seq<char>) -> Result<JsonView, Seq<char>>;

/// What `serde_json::from_slice` reads from bytes: the value, or the message of its error.
pub uninterp spec fn json_parsed_bytes(bytes: Seq<u8>) -> Result<JsonView, Seq<char>>;

/// The compact text that `serde_json` writes for a value.
pub uninterp spec fn json_text(value: JsonView) -> Seq<char>;

/// The indented text that `serde_json` writes for a value, or the message of its error.
pub uninterp spec fn json_pretty(value: JsonView) -> Result<Seq<char>, Seq<char>>;

/// Moves a `serde_json::Value` into a `Json`, variant by variant. The entries of an object keep
/// their order, which is that of the text where the value was read.
#[verifier::external_body]
fn from_value(value: serde_json::Value) -> (result: Json) {
    match value {
        serde_json::Value::Null => Json::Null,
        serde_json::Value::Bool(b) => Json::Bool(b),
        serde_json::Value::Number(n) => match (n.as_u64(), n.as_i64()) {
            (Some(n), _) => Json::Unsigned(n),
            (None, Some(n)) => Json::Negative(n),
            (None, None) => Json::Fraction(n.to_string()),
        },
        serde_json::Value::String(s) => Json::Text(s),
        serde_json::Value::Array(v) => Json::List(v.into_iter().map(from_value).collect()),
        serde_json::Value::Object(m) => {
            Json::Object(m.into_iter().map(|(k, v)| (k, from_value(v))).collect())
        },
    }
}

/// Copies a `Json` into a `serde_json::Value`, variant by variant. The entries of an object keep
/// their order.
#[verifier::external_body]
fn to_value(json: &Json) -> (result: serde_json::Value) {
    match json {
        Json::Null => serde_json::Value::Null,
        Json::Bool(b) => serde_json::Value::from(*b),
        Json::Unsigned(n) => serde_json::Value::from(*n),
        Json::Negative(n) => serde_json::Value::from(*n),
        Json::Fraction(s) => s.parse().map_or(serde_json::Value::Null, serde_json::Value::Number),
        Json::Text(s) => serde_json::Value::from(s.as_str()),
        Json::List(v) => serde_json::Value::Array(v.iter().map(to_value).collect()),
        Json::Object(m) => {
            serde_json::Value::Object(m.iter().map(|(k, v)| (k.clone(), to_value(v))).collect())
        },
    }
}

/// Reads a JSON text with `serde_json::from_str`. The result is named by `json_parsed`.
#[verifier::external_body]
pub(crate) fn parse_json(text: &str) -> (result: Result<Json, String>)
    ensures
        match result {
            Ok(value) => json_parsed(text@) == Ok::<JsonView, Seq<char>>(value@),
            Err(message) => json_parsed(text@) == Err::<JsonView, Seq<char>>(message@),
        },
{
    match serde_json::from_str::<serde_json::Value>(text) {
        Ok(value) => Ok(from_value(value)),
        Err(error) => Err(error.to_string()),
    }
}

/// Reads JSON from bytes with `serde_json::from_slice`. The result is named by
/// `json_parsed_bytes`.
#[verifier::external_body]
pub(crate) fn parse_json_bytes(bytes: &[u8]) -> (result: Result<Json, String>)
    ensures
        match result {
            Ok(value) => json_parsed_bytes(bytes@) == Ok::<JsonView, Seq<char>>(value@),
            Err(message) => json_parsed_bytes(bytes@) == Err::<JsonView, Seq<char>>(message@),
        },
{
    match serde_json::from_slice::<serde_json::Value>(bytes) {
        Ok(value) => Ok(from_value(value)),
        Err(error) => Err(error.to_string()),
    }
}

/// Writes the compact text of a value with `Display` of `serde_json::Value`. The result is named
/// by `json_text`. Reading the text of a plain value of at most a hundred levels gives the value
/// back: the reader's own limit is 128 levels.
#[verifier::external_body]
pub(crate) fn write_json(json: &Json) -> (result: String)
    ensures
        result@ == json_text(json@),
        plain(json@, 100) ==> json_parsed(result@) is Ok && json_parsed(result@)->Ok_0 == json@,
{
    to_value(json).to_string()
}

/// Writes the indented text of a value with `serde_json::to_string_pretty`. The result is named by
/// `json_pretty`. A plain value of at most a hundred levels is written, and reading its text gives
/// the value back.
#[verifier::external_body]
pub(crate) fn write_json_pretty(json: &Json) -> (result: Result<String, String>)
    ensures
        match result {
            Ok(text) => json_pretty(json@) == Ok::<Seq<char>, Seq<char>>(text@),
            Err(message) => json_pretty(json@) == Err::<Seq<char>, Seq<char>>(message@),
        },
        plain(json@, 100) ==> result is Ok && json_parsed(result->Ok_0@) is Ok && json_parsed(
            result->Ok_0@,
        )->Ok_0 == json@,
{
    match serde_json::to_string_pretty(&to_value(json)) {
        Ok(text) => Ok(text),
        Err(error) => Err(error.to_string()),
    }
}

impl Json {
    /// The value that a JSON text holds, or why it holds none.
    pub fn read(text: &str) -> (result: Result<Json, String>)
        ensures
            match result {
                Ok(value) => json_parsed(text@) == Ok::<JsonView, Seq<char>>(value@),
                Err(message) => json_parsed(text@) == Err::<JsonView, Seq<char>>(message@),
            },
    {
        parse_json(text)
    }

    /// The compact JSON text of this value. The text of a plain value of at most a hundred levels
    /// reads back as the value.
    pub fn text(&self) -> (result: String)
        ensures
            result@ == json_text(self@),
            plain(self@, 100) ==> json_parsed(result@) == Ok::<JsonView, Seq<char>>(self@),
    {
        write_json(self)
    }
}

/// Whether the entry at a place is the first under a key.
pub open spec fn first_entry(
    entries: Seq<(Seq<char>, JsonView)>,
    key: Seq<char>,
    at: int,
) -> bool {
    &&& 0 <= at < entries.len()
    &&& entries[at].0 == key
    &&& forall|k: int| 0 <= k < at ==> (#[trigger] entries[k]).0 != key
}

/// A field of an object is the value of the first entry under its key, and it is missing exactly where
/// no entry has the key; no other value has fields, and only text is a text field.
pub proof fn law_fields_are_the_first_entries(
    entries: Seq<(Seq<char>, JsonView)>,
    key: Seq<char>,
    at: int,
    value: JsonView,
)
    ensures
        first_entry(entries, key, at) ==> field(JsonView::Object(entries), key) == Some(
            entries[at].1,
        ),
        field(JsonView::Object(entries), key) is None <==> forall|k: int|
            0 <= k < entries.len() ==> (#[trigger] entries[k]).0 != key,
        value !is Object ==> field(value, key) is None,
        text_field(value, key) is Some <==> (field(value, key) matches Some(found) && found is Text),
        (field(value, key) matches Some(found) && found is Text) ==> field(value, key) == Some(
            JsonView::Text(text_field(value, key)->0),
        ),
    decreases entries.len(),
{
    lemma_entry(entries, key);
    if entries.len() > 0 && entries[0].0 != key && at > 0 {
        let rest = entries.subrange(1, entries.len() as int);
        law_fields_are_the_first_entries(rest, key, at - 1, value);
        if first_entry(entries, key, at) {
            assert(rest[at - 1] == entries[at]);
            assert forall|k: int| 0 <= k < at - 1 implies (#[trigger] rest[k]).0 != key by {
                assert(rest[k] == entries[k + 1]);
            }
        }
    }
    if first_entry(entries, key, at) && at > 0 {
        assert(entries[0].0 != key);
    }
}

/// A field that is set is read back, and no other field changes; where only fields that are there may
/// be replaced, one that is missing stays missing.
pub proof fn law_fields_are_read_back(
    target: JsonView,
    key: Seq<char>,
    other: Seq<char>,
    value: JsonView,
)
    requires
        target is Object,
        other != key,
    ensures
        field(put_field(target, key, value), key) == Some(value),
        field(put_field(target, key, value), other) == field(target, other),
        field(target, key) is Some ==> field(with_field(target, key, value), key) == Some(value),
        field(target, key) is None ==> field(with_field(target, key, value), key) is None,
        field(with_field(target, key, value), other) == field(target, other),
{
    let entries = target->Object_0;
    lemma_entry(entries, key);
    lemma_put_entry(entries, key, value, key);
    lemma_put_entry(entries, key, value, other);
    lemma_with_entry_other(entries, key, value, other);
    if field(target, key) is Some {
        lemma_with_entry_read(entries, key, value);
    } else {
        lemma_with_entry_absent(entries, key, value);
    }
}

/// Two values that are taken to be the same are of one kind: the same truth value, number or text,
/// lists of values that are the same in their order, or objects with as many entries of which each
/// has its counterpart under the same key.
pub proof fn law_same_values_are_of_one_kind(a: JsonView, b: JsonView)
    requires
        same_json(a, b),
    ensures
        a is Null <==> b is Null,
        a matches JsonView::Bool(x) ==> b == JsonView::Bool(x),
        a matches JsonView::Unsigned(x) ==> b == JsonView::Unsigned(x),
        a matches JsonView::Negative(x) ==> b == JsonView::Negative(x),
        a matches JsonView::Text(x) ==> b == JsonView::Text(x),
        a matches JsonView::List(x) ==> (b matches JsonView::List(y) && x.len() == y.len()
            && forall|i: int| 0 <= i < x.len() ==> same_json(#[trigger] x[i], y[i])),
        a matches JsonView::Object(x) ==> (b matches JsonView::Object(y) && x.len() == y.len()
            && forall|i: int|
            0 <= i < x.len() ==> (field(b, (#[trigger] x[i]).0) matches Some(other) && same_json(
                x[i].1,
                other,
            ))),
{
}

} // verus!
