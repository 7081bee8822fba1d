//! The JSON values that flow through rt's metadata and arguments, and a small
//! string-keyed object type whose view is a map.
use vstd::prelude::*;
use crate::text::{copy_string, decimal, decimal_text, str_eq};
use vstd::string::StringExecFns;
use vstd::string::StrSliceExecFns;

verus! {

/// A JSON value as rt's logic sees it. Values rt never inspects beyond
/// printing them (floats, arrays, objects, integers outside `i64`) are kept as
/// their compact JSON text in `Raw`.
#[derive(Debug, Clone, PartialEq)]
pub enum JsonValue {
    Null,
    Bool(bool),
    Int(i64),
    Str(String),
    Raw(String),
}

/// The mathematical view of a [`JsonValue`].
pub ghost enum JsonVal {
    Null,
    Bool(bool),
    Int(i64),
    Str(Seq<char>),
    Raw(Seq<char>),
}

impl View for JsonValue {
    type V = JsonVal;

    open spec fn view(&self) -> JsonVal {
        match self {
            JsonValue::Null => JsonVal::Null,
            JsonValue::Bool(b) => JsonVal::Bool(*b),
            JsonValue::Int(n) => JsonVal::Int(*n),
            JsonValue::Str(s) => JsonVal::Str(s@),
            JsonValue::Raw(s) => JsonVal::Raw(s@),
        }
    }
}

/// The characters of a JSON string literal for `s`, escaped as `serde_json`
/// writes them: `"` and `\` are backslash-escaped, the control characters
/// below U+0020 become `\b`, `\t`, `\n`, `\f`, `\r` or `\u00XX`.
pub open spec fn json_escape_char(c: char) -> Seq<char> {
    if c == '"' {
        seq!['\\', '"']
    } else if c == '\\' {
        seq!['\\', '\\']
    } else if c == '\u{8}' {
        seq!['\\', 'b']
    } else if c == '\t' {
        seq!['\\', 't']
    } else if c == '\n' {
        seq!['\\', 'n']
    } else if c == '\u{c}' {
        seq!['\\', 'f']
    } else if c == '\r' {
        seq!['\\', 'r']
    } else if (c as u32) < 0x20 {
        seq!['\\', 'u', '0', '0', hex_digit((c as u32 / 16) as nat), hex_digit((c as u32 % 16) as nat)]
    } else {
        seq![c]
    }
}

/// Lower-case hexadecimal digit.
pub open spec fn hex_digit(d: nat) -> char {
    if d < 10 {
        crate::text::digit_char(d)
    } else if d == 10 {
        'a'
    } else if d == 11 {
        'b'
    } else if d == 12 {
        'c'
    } else if d == 13 {
        'd'
    } else if d == 14 {
        'e'
    } else {
        'f'
    }
}

/// The escaped body of a JSON string literal.
pub open spec fn json_escape(s: Seq<char>) -> Seq<char>
    decreases s.len(),
{
    if s.len() == 0 {
        seq![]
    } else {
        json_escape(s.drop_last()) + json_escape_char(s.last())
    }
}

/// The compact JSON text of a value, as `serde_json`'s `Display` writes it.
pub open spec fn json_text(v: JsonVal) -> Seq<char> {
    match v {
        JsonVal::Null => "null"@,
        JsonVal::Bool(b) => if b { "true"@ } else { "false"@ },
        JsonVal::Int(n) => decimal(n as int),
        JsonVal::Str(s) => seq!['"'] + json_escape(s) + seq!['"'],
        JsonVal::Raw(s) => s,
    }
}

/// The text of one object member: the quoted key, a colon, the value.
pub open spec fn json_member(key: Seq<char>, value: JsonVal) -> Seq<char> {
    seq!['"'] + json_escape(key) + seq!['"'] + ":"@ + json_text(value)
}

/// The keys of a list of entries.
pub open spec fn entry_keys(entries: Seq<(String, JsonValue)>) -> Seq<Seq<char>> {
    entries.map_values(|e: (String, JsonValue)| e.0@)
}

/// The members of an object, taking the entries in the order `idx`.
pub open spec fn object_members(entries: Seq<(String, JsonValue)>, idx: Seq<usize>) -> Seq<Seq<char>> {
    idx.map_values(|i: usize| json_member(entries[i as int].0@, entries[i as int].1@))
}

/// The compact JSON text of an object whose entries are taken in the order
/// `idx`.
pub open spec fn object_text(entries: Seq<(String, JsonValue)>, idx: Seq<usize>) -> Seq<char> {
    "{"@ + crate::text::join(object_members(entries, idx), ","@) + "}"@
}

/// The JSON string literal for `s`. Calls `serde_json::to_string` on the
/// string slice. Its source writes the characters as they are, except `"`,
/// `\` and the control characters below U+0020, which it escapes as the
/// contract states (`\b`, `\t`, `\n`, `\f`, `\r`, else `\u00` and two
/// lower-case hexadecimal digits); serialising a string does not fail.
#[verifier::external_body]
pub(crate) fn json_quoted(s: &str) -> (r: String)
    ensures
        r@ == seq!['"'] + json_escape(s@) + seq!['"'],
{
    serde_json::to_string(s).unwrap_or_default()
}

impl JsonValue {
    /// Whether this is JSON `null`.
    pub fn is_null(&self) -> (r: bool)
        ensures
            r == (self@ == JsonVal::Null),
    {
        match self {
            JsonValue::Null => true,
            _ => false,
        }
    }

    /// A copy of this value.
    pub fn copy(&self) -> (r: JsonValue)
        ensures
            r@ == self@,
    {
        match self {
            JsonValue::Null => JsonValue::Null,
            JsonValue::Bool(b) => JsonValue::Bool(*b),
            JsonValue::Int(n) => JsonValue::Int(*n),
            JsonValue::Str(s) => JsonValue::Str(copy_string(s)),
            JsonValue::Raw(s) => JsonValue::Raw(copy_string(s)),
        }
    }

    /// The compact JSON text of this value.
    pub fn to_json_text(&self) -> (r: String)
        ensures
            r@ == json_text(self@),
    {
        match self {
            JsonValue::Null => {
                proof { reveal_strlit("null"); }
                String::from_str("null")
            },
            JsonValue::Bool(b) => {
                proof { reveal_strlit("true"); reveal_strlit("false"); }
                if *b { String::from_str("true") } else { String::from_str("false") }
            },
            JsonValue::Int(n) => decimal_text(*n),
            JsonValue::Str(s) => json_quoted(s.as_str()),
            JsonValue::Raw(s) => copy_string(s),
        }
    }
}

impl KeyedList<JsonValue> {
    /// The compact JSON text of this object, members sorted by key as a
    /// `serde_json` map writes them.
    pub fn to_json_text(&self) -> (r: String)
        ensures
            exists|idx: Seq<usize>| crate::sort::stable_order(entry_keys(self.entries@), idx)
                && r@ == object_text(self.entries@, idx),
    {
        let ghost ks = entry_keys(self.entries@);
        let mut keys: Vec<String> = Vec::new();
        let mut i: usize = 0;
        while i < self.entries.len()
            invariant
                i <= self.entries@.len(),
                ks == entry_keys(self.entries@),
                crate::text::views(keys@) == ks.take(i as int),
            decreases self.entries@.len() - i,
        {
            let ghost before = keys@;
            let k = copy_string(&self.entries[i].0);
            keys.push(k);
            proof {
                crate::text::lemma_views_push(before, k);
                assert(ks.take(i + 1) =~= ks.take(i as int).push(ks[i as int]));
            }
            i = i + 1;
        }
        assert(ks.take(i as int) =~= ks);
        let idx = crate::sort::stable_sort_by_name(&keys);
        let ghost all = object_members(self.entries@, idx@);
        let mut members: Vec<String> = Vec::new();
        let mut j: usize = 0;
        while j < idx.len()
            invariant
                j <= idx@.len(),
                crate::sort::stable_order(ks, idx@),
                ks == entry_keys(self.entries@),
                ks.len() == self.entries@.len(),
                all == object_members(self.entries@, idx@),
                crate::text::views(members@) == all.take(j as int),
            decreases idx@.len() - j,
        {
            let e = idx[j];
            assert(idx@[j as int] < ks.len());
            let (k, v) = &self.entries[e];
            let mut m = json_quoted(k.as_str());
            m.append(":");
            let t = v.to_json_text();
            m.append(t.as_str());
            let ghost before = members@;
            members.push(m);
            proof {
                crate::text::lemma_views_push(before, m);
                assert(all[j as int] == json_member(k@, v@));
                assert(all.take(j + 1) =~= all.take(j as int).push(all[j as int]));
            }
            j = j + 1;
        }
        assert(all.take(j as int) =~= all);
        let mut out = String::from_str("{");
        let body = crate::text::join_strings(&members, ",");
        out.append(body.as_str());
        out.append("}");
        assert(out@ =~= object_text(self.entries@, idx@));
        assert(crate::sort::stable_order(entry_keys(self.entries@), idx@));
        out
    }
}

/// No two entries share a key.
pub open spec fn keys_unique<V>(entries: Seq<(String, V)>) -> bool {
    forall|i: int, j: int|
        0 <= i < entries.len() && 0 <= j < entries.len() && i != j ==> #[trigger] entries[i].0@
            != #[trigger] entries[j].0@
}

/// The map that a list of entries with distinct keys stands for.
pub open spec fn entries_map<V: View>(entries: Seq<(String, V)>) -> Map<Seq<char>, V::V>
    decreases entries.len(),
{
    if entries.len() == 0 {
        Map::empty()
    } else {
        entries_map(entries.drop_last()).insert(entries.last().0@, entries.last().1@)
    }
}

/// A string-keyed collection with distinct keys, kept in insertion order.
/// Its view is the map from key characters to value views.
#[derive(Debug, Clone)]
pub struct KeyedList<V> {
    pub entries: Vec<(String, V)>,
}

impl<V: View> View for KeyedList<V> {
    type V = Map<Seq<char>, V::V>;

    open spec fn view(&self) -> Map<Seq<char>, V::V> {
        entries_map(self.entries@)
    }
}

/// Each entry of a list with distinct keys is in its map.
pub proof fn lemma_entries_map_has<V: View>(entries: Seq<(String, V)>, i: int)
    requires
        keys_unique(entries),
        0 <= i < entries.len(),
    ensures
        entries_map(entries).contains_key(entries[i].0@),
        entries_map(entries)[entries[i].0@] == entries[i].1@,
    decreases entries.len(),
{
    let last = entries.len() - 1;
    if i < last {
        let prefix = entries.drop_last();
        assert(keys_unique(prefix)) by {
            assert forall|a: int, b: int|
                0 <= a < prefix.len() && 0 <= b < prefix.len() && a != b implies #[trigger] prefix[a].0@
                != #[trigger] prefix[b].0@ by {
                assert(prefix[a] == entries[a] && prefix[b] == entries[b]);
            }
        }
        assert(prefix[i] == entries[i]);
        lemma_entries_map_has(prefix, i);
        assert(entries[i].0@ != entries[last].0@);
    }
}

/// The keys of an entry list's map are exactly the keys of its entries.
pub proof fn lemma_entries_map_keys<V: View>(entries: Seq<(String, V)>, k: Seq<char>)
    ensures
        entries_map(entries).contains_key(k) <==> exists|i: int| 0 <= i < entries.len() && #[trigger] entries[i].0@ == k,
    decreases entries.len(),
{
    if entries.len() > 0 {
        let prefix = entries.drop_last();
        lemma_entries_map_keys(prefix, k);
        if entries_map(entries).contains_key(k) {
            if k == entries.last().0@ {
                assert(entries[entries.len() - 1].0@ == k);
            } else {
                let i = choose|i: int| 0 <= i < prefix.len() && #[trigger] prefix[i].0@ == k;
                assert(entries[i] == prefix[i]);
            }
        }
        if exists|i: int| 0 <= i < entries.len() && #[trigger] entries[i].0@ == k {
            let i = choose|i: int| 0 <= i < entries.len() && #[trigger] entries[i].0@ == k;
            if i < entries.len() - 1 {
                assert(prefix[i] == entries[i]);
            }
        }
    }
}

proof fn lemma_entries_map_update<V: View>(entries: Seq<(String, V)>, i: int, e: (String, V))
    requires
        keys_unique(entries),
        0 <= i < entries.len(),
        e.0@ == entries[i].0@,
    ensures
        keys_unique(entries.update(i, e)),
        entries_map(entries.update(i, e)) == entries_map(entries).insert(e.0@, e.1@),
    decreases entries.len(),
{
    let updated = entries.update(i, e);
    assert(keys_unique(updated)) by {
        assert forall|a: int, b: int|
            0 <= a < updated.len() && 0 <= b < updated.len() && a != b implies #[trigger] updated[a].0@
            != #[trigger] updated[b].0@ by {
            assert(updated[a].0@ == entries[a].0@);
            assert(updated[b].0@ == entries[b].0@);
        }
    }
    let last = entries.len() - 1;
    let prefix = entries.drop_last();
    assert(keys_unique(prefix)) by {
        assert forall|a: int, b: int|
            0 <= a < prefix.len() && 0 <= b < prefix.len() && a != b implies #[trigger] prefix[a].0@
            != #[trigger] prefix[b].0@ by {
            assert(prefix[a] == entries[a] && prefix[b] == entries[b]);
        }
    }
    if i == last {
        assert(updated.drop_last() =~= prefix);
        assert(entries_map(updated) =~= entries_map(entries).insert(e.0@, e.1@));
    } else {
        assert(updated.drop_last() =~= prefix.update(i, e));
        lemma_entries_map_update(prefix, i, e);
        assert(entries[i].0@ != entries[last].0@);
        assert(entries_map(updated) =~= entries_map(entries).insert(e.0@, e.1@));
    }
}

impl<V: View> KeyedList<V> {
    /// Distinct keys.
    pub open spec fn wf(&self) -> bool {
        keys_unique(self.entries@)
    }

    /// An empty collection.
    pub fn new() -> (r: Self)
        ensures
            r.wf(),
            r@ == Map::<Seq<char>, V::V>::empty(),
    {
        KeyedList { entries: Vec::new() }
    }

    /// The position of `key`, if present.
    pub fn position(&self, key: &str) -> (r: Option<usize>)
        requires
            self.wf(),
        ensures
            r is Some <==> self@.contains_key(key@),
            r matches Some(i) ==> i < self.entries@.len() && self.entries@[i as int].0@ == key@,
    {
        let mut i: usize = 0;
        while i < self.entries.len()
            invariant
                i <= self.entries@.len(),
                self.wf(),
                forall|k: int| 0 <= k < i ==> self.entries@[k].0@ != key@,
            decreases self.entries@.len() - i,
        {
            if str_eq(self.entries[i].0.as_str(), key) {
                proof { lemma_entries_map_has(self.entries@, i as int); }
                return Some(i);
            }
            i = i + 1;
        }
        proof { lemma_entries_map_keys(self.entries@, key@); }
        None
    }

    /// Whether `key` is present.
    pub fn contains_key(&self, key: &str) -> (r: bool)
        requires
            self.wf(),
        ensures
            r == self@.contains_key(key@),
    {
        self.position(key).is_some()
    }

    /// The value stored under `key`.
    pub fn get(&self, key: &str) -> (r: Option<&V>)
        requires
            self.wf(),
        ensures
            r is Some <==> self@.contains_key(key@),
            r matches Some(v) ==> v@ == self@[key@],
    {
        match self.position(key) {
            Some(i) => {
                proof { lemma_entries_map_has(self.entries@, i as int); }
                Some(&self.entries[i].1)
            },
            None => None,
        }
    }

    /// Stores `value` under `key`, replacing what was there.
    pub fn insert(&mut self, key: String, value: V)
        requires
            old(self).wf(),
        ensures
            final(self).wf(),
            final(self)@ == old(self)@.insert(key@, value@),
    {
        match self.position(key.as_str()) {
            Some(i) => {
                proof { lemma_entries_map_update(self.entries@, i as int, (key, value)); }
                self.entries.set(i, (key, value));
            },
            None => {
                let ghost before = self.entries@;
                proof { lemma_entries_map_keys(before, key@); }
                self.entries.push((key, value));
                assert(self.entries@.drop_last() =~= before);
                assert(keys_unique(self.entries@)) by {
                    assert forall|a: int, b: int|
                        0 <= a < self.entries@.len() && 0 <= b < self.entries@.len() && a != b implies
                        #[trigger] self.entries@[a].0@ != #[trigger] self.entries@[b].0@ by {
                        if a < before.len() && b < before.len() {
                            assert(self.entries@[a] == before[a] && self.entries@[b] == before[b]);
                        } else if a < before.len() {
                            assert(self.entries@[a] == before[a]);
                        } else {
                            assert(self.entries@[b] == before[b]);
                        }
                    }
                }
            },
        }
    }
}

} // verus!
