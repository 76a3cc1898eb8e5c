//! The header fields of a request: a finite map from field names to values.

use vstd::prelude::*;

verus! {

/// Whether the entry at `i` is the one for `key`.
pub open spec fn holds_at(entries: Seq<(String, String)>, i: int, key: Seq<char>) -> bool {
    0 <= i < entries.len() && entries[i].0@ == key
}

/// Whether some entry is for `key`.
pub open spec fn has_entry(entries: Seq<(String, String)>, key: Seq<char>) -> bool {
    exists|i: int| holds_at(entries, i, key)
}

/// Where an entry for `key` stands, if there is one.
pub open spec fn position(entries: Seq<(String, String)>, key: Seq<char>) -> int {
    choose|i: int| holds_at(entries, i, key)
}

/// Whether no two entries are for the same key.
pub open spec fn keys_are_unique(entries: Seq<(String, String)>) -> bool {
    forall|i: int, j: int|
        0 <= i < j < entries.len() ==> (#[trigger] entries[i]).0@ != (#[trigger] entries[j]).0@
}

/// The map that a list of entries with unique keys stands for.
pub open spec fn table_of(entries: Seq<(String, String)>) -> Map<Seq<char>, Seq<char>> {
    Map::new(
        |key: Seq<char>| has_entry(entries, key),
        |key: Seq<char>| entries[position(entries, key)].1@,
    )
}

/// The map after one header has been set: `Some` value binds the key to it,
/// replacing what was bound before, and `None` removes the key.
pub open spec fn updated(
    table: Map<Seq<char>, Seq<char>>,
    key: Seq<char>,
    value: Option<Seq<char>>,
) -> Map<Seq<char>, Seq<char>> {
    match value {
        Some(v) => table.insert(key, v),
        None => table.remove(key),
    }
}

/// A header that is set and then removed is absent, whatever was bound before.
pub proof fn lemma_removed_header_is_absent(
    table: Map<Seq<char>, Seq<char>>,
    key: Seq<char>,
    value: Seq<char>,
)
    ensures
        !updated(updated(table, key, Some(value)), key, None).contains_key(key),
        updated(updated(table, key, Some(value)), key, None) == updated(table, key, None),
{
    assert(table.insert(key, value).remove(key) =~= table.remove(key));
}

/// The last value set for a header is the one it has.
pub proof fn lemma_last_write_wins(
    table: Map<Seq<char>, Seq<char>>,
    key: Seq<char>,
    first: Option<Seq<char>>,
    last: Seq<char>,
)
    ensures
        updated(updated(table, key, first), key, Some(last)) == updated(table, key, Some(last)),
        updated(table, key, Some(last)).contains_key(key),
        updated(table, key, Some(last))[key] == last,
{
    match first {
        Some(v) => {
            assert(table.insert(key, v).insert(key, last) =~= table.insert(key, last));
        },
        None => {
            assert(table.remove(key).insert(key, last) =~= table.insert(key, last));
        },
    }
}

/// Setting one header leaves every other as it was.
pub proof fn lemma_other_headers_untouched(
    table: Map<Seq<char>, Seq<char>>,
    key: Seq<char>,
    value: Option<Seq<char>>,
    other: Seq<char>,
)
    requires
        other != key,
    ensures
        updated(table, key, value).contains_key(other) == table.contains_key(other),
        table.contains_key(other) ==> updated(table, key, value)[other] == table[other],
{
}

/// With unique keys, an entry for `key` stands at one place only.
pub proof fn lemma_position_is_unique(entries: Seq<(String, String)>, i: int, key: Seq<char>)
    requires
        keys_are_unique(entries),
        holds_at(entries, i, key),
    ensures
        has_entry(entries, key),
        position(entries, key) == i,
        table_of(entries).contains_key(key),
        table_of(entries)[key] == entries[i].1@,
{
    let p = position(entries, key);
    assert(holds_at(entries, p, key));
    if p < i {
        assert(entries[p].0@ != entries[i].0@);
    } else if i < p {
        assert(entries[i].0@ != entries[p].0@);
    }
}

/// Whether `entry` stands somewhere in `entries`.
pub open spec fn occurs(entries: Seq<(String, String)>, entry: (String, String)) -> bool {
    exists|i: int| 0 <= i < entries.len() && entries[i] == entry
}

/// Whether every entry of `from` that is for another key than `key` stands in `to`.
pub open spec fn carries_over(
    from: Seq<(String, String)>,
    to: Seq<(String, String)>,
    key: Seq<char>,
) -> bool {
    forall|i: int| 0 <= i < from.len() && from[i].0@ != key ==> occurs(to, #[trigger] from[i])
}

/// Entries carry over from one list to another where each, but for those for
/// `key`, stands in the other at its own place, or `step` places on where its
/// place is `gap` or after it.
pub proof fn lemma_carries_over_by_place(
    from: Seq<(String, String)>,
    to: Seq<(String, String)>,
    key: Seq<char>,
    gap: int,
    step: int,
)
    requires
        forall|k: int|
            0 <= k < from.len() && (#[trigger] from[k]).0@ != key ==> {
                let place = if k < gap {
                    k
                } else {
                    k + step
                };
                0 <= place < to.len() && to[place] == from[k]
            },
    ensures
        carries_over(from, to, key),
{
    assert forall|k: int| 0 <= k < from.len() && from[k].0@ != key implies occurs(
        to,
        #[trigger] from[k],
    ) by {
        let place = if k < gap {
            k
        } else {
            k + step
        };
        assert(to[place] == from[k]);
    }
}

/// A binding of one list is a binding of every list that its entry stands in.
pub proof fn lemma_binding_carried(
    from: Seq<(String, String)>,
    to: Seq<(String, String)>,
    key: Seq<char>,
    other: Seq<char>,
)
    requires
        keys_are_unique(from),
        keys_are_unique(to),
        carries_over(from, to, key),
        other != key,
        has_entry(from, other),
    ensures
        has_entry(to, other),
        table_of(to)[other] == table_of(from)[other],
{
    let p = position(from, other);
    assert(holds_at(from, p, other));
    lemma_position_is_unique(from, p, other);
    assert(occurs(to, from[p]));
    let q = choose|q: int| 0 <= q < to.len() && to[q] == from[p];
    assert(holds_at(to, q, other));
    lemma_position_is_unique(to, q, other);
}

/// Two lists with unique keys that hold the same entries, but for those for
/// `key`, bind every other key alike.
pub proof fn lemma_same_entries_bind_alike(
    before: Seq<(String, String)>,
    after: Seq<(String, String)>,
    key: Seq<char>,
)
    requires
        keys_are_unique(before),
        keys_are_unique(after),
        carries_over(before, after, key),
        carries_over(after, before, key),
    ensures
        forall|other: Seq<char>|
            other != key ==> {
                &&& #[trigger] has_entry(after, other) == has_entry(before, other)
                &&& has_entry(after, other) ==> table_of(after)[other] == table_of(before)[other]
            },
{
    assert forall|other: Seq<char>| other != key implies {
        &&& #[trigger] has_entry(after, other) == has_entry(before, other)
        &&& has_entry(after, other) ==> table_of(after)[other] == table_of(before)[other]
    } by {
        if has_entry(after, other) {
            lemma_binding_carried(after, before, key, other);
        }
        if has_entry(before, other) {
            lemma_binding_carried(before, after, key, other);
        }
    }
}

/// Replacing the value of the entry for `key` binds `key` to the new value.
pub proof fn lemma_replace(
    entries: Seq<(String, String)>,
    i: int,
    entry: (String, String),
)
    requires
        keys_are_unique(entries),
        holds_at(entries, i, entry.0@),
    ensures
        keys_are_unique(entries.update(i, entry)),
        table_of(entries.update(i, entry)) == table_of(entries).insert(entry.0@, entry.1@),
{
    let after = entries.update(i, entry);
    assert forall|a: int, b: int| 0 <= a < b < after.len() implies (#[trigger] after[a]).0@ != (
    #[trigger] after[b]).0@ by {
        assert(after[a].0@ == entries[a].0@);
        assert(after[b].0@ == entries[b].0@);
    }
    lemma_carries_over_by_place(entries, after, entry.0@, 0, 0);
    lemma_carries_over_by_place(after, entries, entry.0@, 0, 0);
    lemma_same_entries_bind_alike(entries, after, entry.0@);
    assert(holds_at(after, i, entry.0@));
    lemma_position_is_unique(after, i, entry.0@);
    assert(table_of(after) =~= table_of(entries).insert(entry.0@, entry.1@));
}

/// Adding an entry for a key that has none binds the key to its value.
pub proof fn lemma_append(entries: Seq<(String, String)>, entry: (String, String))
    requires
        keys_are_unique(entries),
        !has_entry(entries, entry.0@),
    ensures
        keys_are_unique(entries.push(entry)),
        table_of(entries.push(entry)) == table_of(entries).insert(entry.0@, entry.1@),
{
    let after = entries.push(entry);
    assert forall|a: int, b: int| 0 <= a < b < after.len() implies (#[trigger] after[a]).0@ != (
    #[trigger] after[b]).0@ by {
        if b == entries.len() {
            assert(!holds_at(entries, a, entry.0@));
        }
    }
    lemma_carries_over_by_place(entries, after, entry.0@, 0, 0);
    lemma_carries_over_by_place(after, entries, entry.0@, 0, 0);
    lemma_same_entries_bind_alike(entries, after, entry.0@);
    assert(holds_at(after, entries.len() as int, entry.0@));
    lemma_position_is_unique(after, entries.len() as int, entry.0@);
    assert(table_of(after) =~= table_of(entries).insert(entry.0@, entry.1@));
}

/// Taking out the entry for `key` leaves `key` unbound and the rest as it was.
pub proof fn lemma_take_out(entries: Seq<(String, String)>, i: int, key: Seq<char>)
    requires
        keys_are_unique(entries),
        holds_at(entries, i, key),
    ensures
        keys_are_unique(entries.remove(i)),
        table_of(entries.remove(i)) == table_of(entries).remove(key),
{
    let after = entries.remove(i);
    assert forall|a: int, b: int| 0 <= a < b < after.len() implies (#[trigger] after[a]).0@ != (
    #[trigger] after[b]).0@ by {
        let a0 = if a < i { a } else { a + 1 };
        let b0 = if b < i { b } else { b + 1 };
        assert(after[a] == entries[a0]);
        assert(after[b] == entries[b0]);
    }
    assert(!has_entry(after, key)) by {
        if has_entry(after, key) {
            let p = position(after, key);
            assert(holds_at(after, p, key));
            let p0 = if p < i { p } else { p + 1 };
            assert(after[p] == entries[p0]);
            lemma_position_is_unique(entries, p0, key);
        }
    }
    lemma_carries_over_by_place(entries, after, key, i, -1);
    lemma_carries_over_by_place(after, entries, key, i, 1);
    lemma_same_entries_bind_alike(entries, after, key);
    assert(table_of(after) =~= table_of(entries).remove(key));
}

/// The header fields of a request. Each name is bound to at most one value.
#[derive(Debug)]
pub struct Headers {
    entries: Vec<(String, String)>,
}

impl View for Headers {
    type V = Map<Seq<char>, Seq<char>>;

    closed spec fn view(&self) -> Map<Seq<char>, Seq<char>> {
        table_of(self.entries@)
    }
}

impl Headers {
    #[verifier::type_invariant]
    spec fn inv(self) -> bool {
        keys_are_unique(self.entries@)
    }

    /// No header fields at all.
    pub fn new() -> (headers: Headers)
        ensures
            headers@ == Map::<Seq<char>, Seq<char>>::empty(),
    {
        let headers = Headers { entries: Vec::new() };
        assert(headers@ =~= Map::<Seq<char>, Seq<char>>::empty()) by {
            assert forall|key: Seq<char>| !has_entry(headers.entries@, key) by {
                if has_entry(headers.entries@, key) {
                    let i = position(headers.entries@, key);
                    assert(holds_at(headers.entries@, i, key));
                }
            }
        }
        headers
    }

    /// Where the entry for `key` stands, if there is one.
    fn find(&self, key: &String) -> (found: Option<usize>)
        ensures
            match found {
                Some(i) => holds_at(self.entries@, i as int, key@),
                None => !has_entry(self.entries@, key@),
            },
    {
        let mut i: usize = 0;
        while i < self.entries.len()
            invariant
                i <= self.entries.len(),
                forall|j: int| 0 <= j < i ==> !holds_at(self.entries@, j, key@),
            decreases self.entries.len() - i,
        {
            if self.entries[i].0 == *key {
                return Some(i);
            }
            i = i + 1;
        }
        assert(!has_entry(self.entries@, key@)) by {
            if has_entry(self.entries@, key@) {
                let p = position(self.entries@, key@);
                assert(holds_at(self.entries@, p, key@));
            }
        }
        None
    }

    /// The value bound to `key`, if any.
    pub fn get(&self, key: &String) -> (value: Option<&String>)
        ensures
            match value {
                Some(v) => self@.contains_key(key@) && v@ == self@[key@],
                None => !self@.contains_key(key@),
            },
    {
        proof {
            use_type_invariant(self);
        }
        match self.find(key) {
            Some(i) => {
                proof {
                    lemma_position_is_unique(self.entries@, i as int, key@);
                }
                Some(&self.entries[i].1)
            },
            None => None,
        }
    }

    /// Binds `key` to the value given, in place of any it had, or removes
    /// `key` where `None` is given.
    pub fn set(self, key: String, value: Option<String>) -> (headers: Headers)
        ensures
            headers@ == updated(
                self@,
                key@,
                match value {
                    Some(v) => Some(v@),
                    None => None,
                },
            ),
    {
        proof {
            use_type_invariant(&self);
        }
        let found = self.find(&key);
        let mut entries = self.entries;
        match value {
            Some(v) => {
                match found {
                    Some(i) => {
                        proof {
                            lemma_replace(entries@, i as int, (key, v));
                        }
                        entries.set(i, (key, v));
                    },
                    None => {
                        proof {
                            lemma_append(entries@, (key, v));
                        }
                        entries.push((key, v));
                    },
                }
            },
            None => {
                match found {
                    Some(i) => {
                        proof {
                            lemma_take_out(entries@, i as int, key@);
                        }
                        entries.remove(i);
                    },
                    None => {
                        assert(table_of(entries@).remove(key@) =~= table_of(entries@));
                    },
                }
            },
        }
        Headers { entries }
    }

    /// The bindings as a list: one entry for each bound name.
    pub fn entries(&self) -> (entries: &Vec<(String, String)>)
        ensures
            keys_are_unique(entries@),
            table_of(entries@) == self@,
    {
        proof {
            use_type_invariant(self);
        }
        &self.entries
    }
}

} // verus!
