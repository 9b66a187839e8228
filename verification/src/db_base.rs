//! An ordered map from entry names to values, kept as parallel vectors
//! sorted by the names' UTF-8 bytes.

use vstd::prelude::*;
use vstd::utf8::{decode_utf8, encode_utf8, encode_utf8_decode_utf8};

use crate::order::{
    bytes_lt, compare_bytes, lemma_lt_asymmetric, lemma_lt_irreflexive, lemma_lt_total,
    lemma_lt_transitive, Order,
};

pub mod error;

use self::error::DatabaseError;

verus! {

/// The bytes by which a name is ordered: its UTF-8 encoding.
pub open spec fn name_key(name: Seq<char>) -> Seq<u8> {
    encode_utf8(name)
}

/// The views of a sequence of strings.
pub open spec fn views(names: Seq<String>) -> Seq<Seq<char>> {
    names.map_values(|s: String| s@)
}

/// Names strictly increasing by their UTF-8 bytes.
pub open spec fn sorted_names(names: Seq<Seq<char>>) -> bool {
    forall|i: int, j: int|
        0 <= i < j < names.len() ==> #[trigger] bytes_lt(name_key(names[i]), name_key(names[j]))
}

/// A position at which `k` occurs in `names`, if it occurs.
pub open spec fn position_of(names: Seq<Seq<char>>, k: Seq<char>) -> int {
    choose|i: int| 0 <= i < names.len() && names[i] == k
}

/// The map that parallel name and value sequences stand for.
pub open spec fn entries_map<V>(names: Seq<Seq<char>>, values: Seq<V>) -> Map<Seq<char>, V> {
    Map::new(
        |k: Seq<char>| exists|i: int| 0 <= i < names.len() && names[i] == k,
        |k: Seq<char>| values[position_of(names, k)],
    )
}

/// Equal encodings come from equal names.
pub proof fn lemma_name_key_injective(a: Seq<char>, b: Seq<char>)
    ensures
        name_key(a) == name_key(b) ==> a == b,
{
    encode_utf8_decode_utf8(a);
    encode_utf8_decode_utf8(b);
}

/// In a sorted sequence, distinct positions hold distinct names.
proof fn lemma_sorted_distinct(names: Seq<Seq<char>>, i: int, j: int)
    requires
        sorted_names(names),
        0 <= i < names.len(),
        0 <= j < names.len(),
        i != j,
    ensures
        names[i] != names[j],
{
    if i < j {
        assert(bytes_lt(name_key(names[i]), name_key(names[j])));
    } else {
        assert(bytes_lt(name_key(names[j]), name_key(names[i])));
    }
    lemma_lt_irreflexive(name_key(names[i]));
}

/// Each position of a sorted sequence is found in its map, with its value.
proof fn lemma_entries_at<V>(names: Seq<Seq<char>>, values: Seq<V>, i: int)
    requires
        sorted_names(names),
        names.len() == values.len(),
        0 <= i < names.len(),
    ensures
        entries_map(names, values).contains_key(names[i]),
        entries_map(names, values)[names[i]] == values[i],
{
    let k = names[i];
    assert(0 <= i < names.len() && names[i] == k);
    let c = position_of(names, k);
    if c != i {
        lemma_sorted_distinct(names, c, i);
    }
    assert(entries_map(names, values).dom().contains(k));
    assert(entries_map(names, values)[k] == values[c]);
}

/// Inserting a new name at a position that keeps the order.
proof fn lemma_insert_at<V>(names: Seq<Seq<char>>, values: Seq<V>, p: int, k: Seq<char>, v: V)
    requires
        sorted_names(names),
        names.len() == values.len(),
        0 <= p <= names.len(),
        forall|i: int| 0 <= i < p ==> bytes_lt(name_key(#[trigger] names[i]), name_key(k)),
        forall|i: int| p <= i < names.len() ==> bytes_lt(name_key(k), name_key(#[trigger] names[i])),
    ensures
        sorted_names(names.insert(p, k)),
        !entries_map(names, values).contains_key(k),
        entries_map(names.insert(p, k), values.insert(p, v)) =~= entries_map(names, values).insert(k, v),
{
    let n2 = names.insert(p, k);
    let v2 = values.insert(p, v);
    let old_map = entries_map(names, values);
    let new_map = entries_map(n2, v2);
    assert forall|i: int, j: int| 0 <= i < j < n2.len() implies #[trigger] bytes_lt(
        name_key(n2[i]),
        name_key(n2[j]),
    ) by {
        if j == p {
        } else if i == p {
        } else if i < p && j > p {
            assert(n2[j] == names[j - 1]);
            lemma_lt_transitive(name_key(names[i]), name_key(k), name_key(names[j - 1]));
        } else if j < p {
        } else {
            assert(bytes_lt(name_key(names[i - 1]), name_key(names[j - 1])));
        }
    }
    if old_map.contains_key(k) {
        let i = choose|i: int| 0 <= i < names.len() && names[i] == k;
        lemma_lt_irreflexive(name_key(k));
        if i < p {
            assert(bytes_lt(name_key(names[i]), name_key(k)));
        } else {
            assert(bytes_lt(name_key(k), name_key(names[i])));
        }
    }
    assert forall|key: Seq<char>| new_map.contains_key(key) <==> old_map.insert(k, v).contains_key(key) by {
        if new_map.contains_key(key) {
            let i = choose|i: int| 0 <= i < n2.len() && n2[i] == key;
            if i < p {
                assert(0 <= i < names.len() && names[i] == key);
            } else if i > p {
                assert(0 <= i - 1 < names.len() && names[i - 1] == key);
            }
        }
        if old_map.contains_key(key) {
            let i = choose|i: int| 0 <= i < names.len() && names[i] == key;
            if i < p {
                assert(0 <= i < n2.len() && n2[i] == key);
            } else {
                assert(0 <= i + 1 < n2.len() && n2[i + 1] == key);
            }
        }
        if key == k {
            assert(0 <= p < n2.len() && n2[p] == key);
        }
    }
    assert forall|key: Seq<char>| #[trigger] new_map.contains_key(key) implies new_map[key] == old_map.insert(
        k,
        v,
    )[key] by {
        let i = choose|i: int| 0 <= i < n2.len() && n2[i] == key;
        lemma_entries_at(n2, v2, i);
        if i < p {
            lemma_entries_at(names, values, i);
        } else if i > p {
            lemma_entries_at(names, values, i - 1);
        }
    }
}

/// Removing the name at a position.
proof fn lemma_remove_at<V>(names: Seq<Seq<char>>, values: Seq<V>, p: int)
    requires
        sorted_names(names),
        names.len() == values.len(),
        0 <= p < names.len(),
    ensures
        sorted_names(names.remove(p)),
        entries_map(names.remove(p), values.remove(p)) =~= entries_map(names, values).remove(names[p]),
{
    let k = names[p];
    let n2 = names.remove(p);
    let v2 = values.remove(p);
    let old_map = entries_map(names, values);
    let new_map = entries_map(n2, v2);
    assert forall|i: int, j: int| 0 <= i < j < n2.len() implies #[trigger] bytes_lt(
        name_key(n2[i]),
        name_key(n2[j]),
    ) by {
        if i < p && j >= p {
            assert(bytes_lt(name_key(names[i]), name_key(names[j + 1])));
        } else if i >= p {
            assert(bytes_lt(name_key(names[i + 1]), name_key(names[j + 1])));
        }
    }
    assert forall|key: Seq<char>| new_map.contains_key(key) <==> old_map.remove(k).contains_key(key) by {
        if new_map.contains_key(key) {
            let i = choose|i: int| 0 <= i < n2.len() && n2[i] == key;
            if i < p {
                assert(0 <= i < names.len() && names[i] == key);
                lemma_sorted_distinct(names, i, p);
            } else {
                assert(0 <= i + 1 < names.len() && names[i + 1] == key);
                lemma_sorted_distinct(names, i + 1, p);
            }
        }
        if old_map.remove(k).contains_key(key) {
            let i = choose|i: int| 0 <= i < names.len() && names[i] == key;
            if i < p {
                assert(0 <= i < n2.len() && n2[i] == key);
            } else {
                assert(i != p);
                assert(0 <= i - 1 < n2.len() && n2[i - 1] == key);
            }
        }
    }
    assert forall|key: Seq<char>| #[trigger] new_map.contains_key(key) implies new_map[key]
        == old_map.remove(k)[key] by {
        let i = choose|i: int| 0 <= i < n2.len() && n2[i] == key;
        lemma_entries_at(n2, v2, i);
        if i < p {
            lemma_entries_at(names, values, i);
        } else {
            lemma_entries_at(names, values, i + 1);
        }
    }
}

/// Replacing the value at a position.
proof fn lemma_update_at<V>(names: Seq<Seq<char>>, values: Seq<V>, p: int, v: V)
    requires
        sorted_names(names),
        names.len() == values.len(),
        0 <= p < names.len(),
    ensures
        entries_map(names, values.update(p, v)) =~= entries_map(names, values).insert(names[p], v),
{
    let v2 = values.update(p, v);
    let old_map = entries_map(names, values);
    let new_map = entries_map(names, v2);
    lemma_entries_at(names, values, p);
    assert forall|key: Seq<char>| #[trigger] new_map.contains_key(key) implies new_map[key]
        == old_map.insert(names[p], v)[key] by {
        let i = choose|i: int| 0 <= i < names.len() && names[i] == key;
        lemma_entries_at(names, v2, i);
        if i != p {
            lemma_entries_at(names, values, i);
            lemma_sorted_distinct(names, i, p);
        }
    }
}

/// A map from entry names to values. Names are unique and kept in the
/// byte order of their UTF-8 encodings.
#[derive(Debug)]
pub struct Database<V> {
    names: Vec<String>,
    values: Vec<V>,
}

impl<V> View for Database<V> {
    type V = Map<Seq<char>, V>;

    closed spec fn view(&self) -> Map<Seq<char>, V> {
        entries_map(views(self.names@), self.values@)
    }
}

impl<V> Database<V> {
    /// The names in the database, in order.
    pub closed spec fn keys(&self) -> Seq<Seq<char>> {
        views(self.names@)
    }

    /// Names and values line up, and names are strictly increasing.
    pub closed spec fn wf(&self) -> bool {
        &&& self.names@.len() == self.values@.len()
        &&& self.names@.len() <= usize::MAX
        &&& sorted_names(views(self.names@))
        &&& forall|i: int| 0 <= i < self.names@.len() ==> name_key(#[trigger] views(self.names@)[i]).len() <= usize::MAX
    }

    /// The listed names are exactly the keys of the map, in order.
    pub proof fn lemma_keys(&self)
        requires
            self.wf(),
        ensures
            sorted_names(self.keys()),
            self.keys().len() <= usize::MAX,
            forall|i: int| 0 <= i < self.keys().len() ==> name_key(#[trigger] self.keys()[i]).len() <= usize::MAX,
            forall|i: int| 0 <= i < self.keys().len() ==> self@.contains_key(#[trigger] self.keys()[i]),
            forall|k: Seq<char>| self@.contains_key(k) ==> self.keys().contains(k),
    {
        let names = views(self.names@);
        assert forall|i: int| 0 <= i < names.len() implies self@.contains_key(#[trigger] names[i]) by {
            lemma_entries_at(names, self.values@, i);
        }
        assert forall|k: Seq<char>| self@.contains_key(k) implies names.contains(k) by {
            let i = choose|i: int| 0 <= i < names.len() && names[i] == k;
            assert(names[i] == k);
        }
    }

    pub fn new() -> (db: Self)
        ensures
            db.wf(),
            db@ == Map::<Seq<char>, V>::empty(),
    {
        let db = Self { names: Vec::new(), values: Vec::new() };
        assert(db@ =~= Map::<Seq<char>, V>::empty());
        db
    }

    pub fn as_ref(&self) -> (r: &Self)
        ensures
            *r == *self,
    {
        self
    }

    pub fn as_ref_mut(&mut self) -> (r: &mut Self)
        ensures
            *r == *old(self),
            *final(self) == *final(r),
    {
        self
    }

    /// Finds where `name` is, or where it would go.
    fn find(&self, name: &str) -> (r: (usize, bool))
        requires
            self.wf(),
        ensures
            r.0 <= self.names@.len(),
            r.1 ==> r.0 < self.names@.len() && self.keys()[r.0 as int] == name@,
            !r.1 ==> (forall|i: int|
                0 <= i < r.0 ==> bytes_lt(name_key(#[trigger] self.keys()[i]), name_key(name@))),
            !r.1 ==> (forall|i: int|
                r.0 <= i < self.keys().len() ==> bytes_lt(
                    name_key(name@),
                    name_key(#[trigger] self.keys()[i]),
                )),
    {
        let key = name.as_bytes();
        let ghost names = self.keys();
        let mut i: usize = 0;
        while i < self.names.len()
            invariant
                self.wf(),
                names == self.keys(),
                key@ == name_key(name@),
                i <= self.names@.len(),
                forall|j: int| 0 <= j < i ==> bytes_lt(name_key(#[trigger] names[j]), name_key(name@)),
            decreases self.names@.len() - i,
        {
            assert(names[i as int] == self.names@[i as int]@);
            match compare_bytes(self.names[i].as_str().as_bytes(), key) {
                Order::Equal => {
                    proof {
                        lemma_name_key_injective(names[i as int], name@);
                    }
                    return (i, true);
                },
                Order::Greater => {
                    proof {
                        assert forall|j: int| i <= j < names.len() implies bytes_lt(
                            name_key(name@),
                            name_key(#[trigger] names[j]),
                        ) by {
                            if j > i {
                                assert(bytes_lt(name_key(names[i as int]), name_key(names[j])));
                                lemma_lt_transitive(
                                    name_key(name@),
                                    name_key(names[i as int]),
                                    name_key(names[j]),
                                );
                            }
                        }
                    }
                    return (i, false);
                },
                Order::Less => {},
            }
            i = i + 1;
        }
        (i, false)
    }

    /// A name that `find` did not find is not in the map.
    proof fn lemma_not_found(&self, name: Seq<char>, p: int)
        requires
            self.wf(),
            0 <= p <= self.keys().len(),
            forall|i: int| 0 <= i < p ==> bytes_lt(name_key(#[trigger] self.keys()[i]), name_key(name)),
            forall|i: int|
                p <= i < self.keys().len() ==> bytes_lt(name_key(name), name_key(#[trigger] self.keys()[i])),
        ensures
            !self@.contains_key(name),
    {
        if self@.contains_key(name) {
            let names = self.keys();
            let i = choose|i: int| 0 <= i < names.len() && names[i] == name;
            lemma_lt_irreflexive(name_key(name));
            if i < p {
                assert(bytes_lt(name_key(names[i]), name_key(name)));
            } else {
                assert(bytes_lt(name_key(name), name_key(names[i])));
            }
        }
    }

    /// Adds `name` with `value`; refuses a name that is already present.
    pub fn insert(&mut self, name: &str, value: V) -> (r: Result<(), DatabaseError>)
        requires
            old(self).wf(),
        ensures
            final(self).wf(),
            old(self)@.contains_key(name@) ==> r == Err::<(), DatabaseError>(DatabaseError::AlreadyExists)
                && final(self)@ == old(self)@,
            !old(self)@.contains_key(name@) ==> r is Ok && final(self)@ == old(self)@.insert(name@, value),
    {
        let (p, found) = self.find(name);
        if found {
            proof {
                lemma_entries_at(self.keys(), self.values@, p as int);
            }
            return Err(DatabaseError::AlreadyExists);
        }
        proof {
            self.lemma_not_found(name@, p as int);
            lemma_insert_at(self.keys(), self.values@, p as int, name@, value);
        }
        let _name_len = name.as_bytes().len();
        let owned = name.to_owned();
        self.names.insert(p, owned);
        self.values.insert(p, value);
        let _len = self.names.len();
        assert(views(self.names@) =~= views(old(self).names@).insert(p as int, name@));
        Ok(())
    }

    /// Sets `name` to `value`, adding the entry or replacing its value.
    pub fn upsert(&mut self, name: &str, value: V)
        requires
            old(self).wf(),
        ensures
            final(self).wf(),
            final(self)@ == old(self)@.insert(name@, value),
    {
        let (p, found) = self.find(name);
        if found {
            proof {
                lemma_update_at(self.keys(), self.values@, p as int, value);
            }
            self.values[p] = value;
        } else {
            proof {
                self.lemma_not_found(name@, p as int);
                lemma_insert_at(self.keys(), self.values@, p as int, name@, value);
            }
            let _name_len = name.as_bytes().len();
            let owned = name.to_owned();
            self.names.insert(p, owned);
            self.values.insert(p, value);
            let _len = self.names.len();
            assert(views(self.names@) =~= views(old(self).names@).insert(p as int, name@));
        }
    }

    /// Takes the entry for `name` out of the map.
    fn take(&mut self, name: &str) -> (r: Option<V>)
        requires
            old(self).wf(),
        ensures
            final(self).wf(),
            old(self)@.contains_key(name@) ==> r == Some(old(self)@[name@])
                && final(self)@ == old(self)@.remove(name@),
            !old(self)@.contains_key(name@) ==> r is None && final(self)@ == old(self)@,
    {
        let (p, found) = self.find(name);
        if !found {
            proof {
                self.lemma_not_found(name@, p as int);
            }
            return None;
        }
        proof {
            lemma_entries_at(self.keys(), self.values@, p as int);
            lemma_remove_at(self.keys(), self.values@, p as int);
        }
        let _removed_name = self.names.remove(p);
        let value = self.values.remove(p);
        assert(views(self.names@) =~= views(old(self).names@).remove(p as int));
        Some(value)
    }

    /// Moves the entry `name` to `new_name`. When `new_name` is already taken
    /// by another entry, the entry `name` is dropped and the error reported.
    pub fn rename(&mut self, name: &str, new_name: &str) -> (r: Result<(), DatabaseError>)
        requires
            old(self).wf(),
        ensures
            final(self).wf(),
            !old(self)@.contains_key(name@) ==> r == Err::<(), DatabaseError>(DatabaseError::NotFound)
                && final(self)@ == old(self)@,
            old(self)@.contains_key(name@) && new_name@ != name@ && old(self)@.contains_key(new_name@)
                ==> r == Err::<(), DatabaseError>(DatabaseError::AlreadyExists)
                && final(self)@ == old(self)@.remove(name@),
            old(self)@.contains_key(name@) && (new_name@ == name@ || !old(self)@.contains_key(new_name@))
                ==> r is Ok && final(self)@ == old(self)@.remove(name@).insert(new_name@, old(self)@[name@]),
    {
        if let Some(data) = self.take(name) {
            self.insert(new_name, data)?;
        } else {
            return Err(DatabaseError::NotFound);
        }
        Ok(())
    }

    /// Replaces the value of an existing entry.
    pub fn replace(&mut self, name: &str, new_data: V) -> (r: Result<(), DatabaseError>)
        requires
            old(self).wf(),
        ensures
            final(self).wf(),
            !old(self)@.contains_key(name@) ==> r == Err::<(), DatabaseError>(DatabaseError::NotFound)
                && final(self)@ == old(self)@,
            old(self)@.contains_key(name@) ==> r is Ok && final(self)@ == old(self)@.insert(name@, new_data),
    {
        let (p, found) = self.find(name);
        if !found {
            proof {
                self.lemma_not_found(name@, p as int);
            }
            return Err(DatabaseError::NotFound);
        }
        proof {
            lemma_update_at(self.keys(), self.values@, p as int, new_data);
        }
        self.values[p] = new_data;
        Ok(())
    }

    /// Removes an existing entry.
    pub fn remove(&mut self, name: &str) -> (r: Result<(), DatabaseError>)
        requires
            old(self).wf(),
        ensures
            final(self).wf(),
            !old(self)@.contains_key(name@) ==> r == Err::<(), DatabaseError>(DatabaseError::NotFound)
                && final(self)@ == old(self)@,
            old(self)@.contains_key(name@) ==> r is Ok && final(self)@ == old(self)@.remove(name@),
    {
        match self.take(name) {
            Some(_value) => Ok(()),
            None => Err(DatabaseError::NotFound),
        }
    }

    /// The value stored under `name`.
    pub fn get(&self, name: &str) -> (r: Result<&V, DatabaseError>)
        requires
            self.wf(),
        ensures
            self@.contains_key(name@) ==> (r matches Ok(v) && *v == self@[name@]),
            !self@.contains_key(name@) ==> r == Err::<&V, DatabaseError>(DatabaseError::NotFound),
    {
        let (p, found) = self.find(name);
        if !found {
            proof {
                self.lemma_not_found(name@, p as int);
            }
            return Err(DatabaseError::NotFound);
        }
        proof {
            lemma_entries_at(self.keys(), self.values@, p as int);
        }
        Ok(&self.values[p])
    }

    /// All names, in order.
    pub fn list(&self) -> (r: Result<Vec<String>, DatabaseError>)
        requires
            self.wf(),
        ensures
            r matches Ok(l) && views(l@) == self.keys(),
    {
        let mut out: Vec<String> = Vec::new();
        let mut i: usize = 0;
        while i < self.names.len()
            invariant
                i <= self.names@.len(),
                views(out@) =~= views(self.names@).take(i as int),
            decreases self.names@.len() - i,
        {
            out.push(self.names[i].clone());
            assert(views(self.names@).take(i + 1) =~= views(self.names@).take(i as int).push(
                self.names@[i as int]@,
            ));
            i = i + 1;
        }
        assert(views(self.names@).take(i as int) =~= views(self.names@));
        Ok(out)
    }

    /// The number of entries.
    pub fn len(&self) -> (n: usize)
        requires
            self.wf(),
        ensures
            n == self.keys().len(),
    {
        self.names.len()
    }

    /// The name and value at position `i` of the order.
    pub fn entry_at(&self, i: usize) -> (r: (&String, &V))
        requires
            self.wf(),
            i < self.keys().len(),
        ensures
            r.0@ == self.keys()[i as int],
            self@.contains_key(r.0@),
            *r.1 == self@[r.0@],
    {
        proof {
            lemma_entries_at(self.keys(), self.values@, i as int);
        }
        (&self.names[i], &self.values[i])
    }
}

/// Removing a name that was just inserted gives the database back: an
/// `insert` of a new name followed by a `remove` of it leaves the entries as
/// they were.
pub proof fn lemma_remove_undoes_insert<V>(
    before: Map<Seq<char>, V>,
    mid: Map<Seq<char>, V>,
    after: Map<Seq<char>, V>,
    name: Seq<char>,
    value: V,
)
    requires
        !before.contains_key(name),
        mid == before.insert(name, value),
        after == mid.remove(name),
    ensures
        after == before,
{
    assert(after =~= before);
}

/// Renaming an entry to a free name and back gives the database back.
pub proof fn lemma_rename_round_trip<V>(
    before: Map<Seq<char>, V>,
    mid: Map<Seq<char>, V>,
    after: Map<Seq<char>, V>,
    name: Seq<char>,
    new_name: Seq<char>,
)
    requires
        before.contains_key(name),
        !before.contains_key(new_name),
        mid == before.remove(name).insert(new_name, before[name]),
        after == mid.remove(new_name).insert(name, mid[new_name]),
    ensures
        after == before,
{
    assert(after =~= before);
}

/// What is read back is what was written: after an `insert` or `replace`
/// of `value` under `name`, `get` of `name` finds `value`, and every other
/// name finds what it found before.
pub proof fn lemma_get_after_write<V>(before: Map<Seq<char>, V>, after: Map<Seq<char>, V>, name: Seq<char>, value: V)
    requires
        after == before.insert(name, value),
    ensures
        after.contains_key(name) && after[name] == value,
        forall|other: Seq<char>|
            other != name ==> (#[trigger] after.contains_key(other) == before.contains_key(other) && (
            before.contains_key(other) ==> after[other] == before[other])),
{
}

} // verus!
