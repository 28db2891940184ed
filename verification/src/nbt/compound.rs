use vstd::prelude::*;

use super::format::{has_key, lookup};
use super::lemmas::lemma_entry_values;
use super::value::{entry_values, NbtCompound, NbtTag, NbtValue};

verus! {

/// A name is present exactly when looking it up finds a value.
pub proof fn lemma_lookup_has_key(entries: Seq<(Seq<char>, NbtValue)>, key: Seq<char>)
    ensures
        lookup(entries, key) is Some <==> has_key(entries, key),
        lookup(entries, key) is Some ==> exists|i: int|
            0 <= i < entries.len() && entries[i].0 == key && entries[i].1 == lookup(
                entries,
                key,
            )->Some_0 && forall|j: int| 0 <= j < i ==> entries[j].0 != key,
    decreases entries.len(),
{
    if entries.len() > 0 {
        lemma_lookup_has_key(entries.drop_first(), key);
        if entries[0].0 != key {
            if has_key(entries, key) {
                let i = choose|i: int| 0 <= i < entries.len() && #[trigger] entries[i].0 == key;
                assert(entries.drop_first()[i - 1].0 == key);
            }
            if has_key(entries.drop_first(), key) {
                let i = choose|i: int|
                    0 <= i < entries.drop_first().len() && #[trigger] entries.drop_first()[i].0
                        == key;
                assert(entries[i + 1].0 == key);
            }
            if lookup(entries, key) is Some {
                let i = choose|i: int|
                    0 <= i < entries.drop_first().len() && entries.drop_first()[i].0 == key
                        && entries.drop_first()[i].1 == lookup(entries, key)->Some_0 && forall|
                        j: int,
                    | 0 <= j < i ==> entries.drop_first()[j].0 != key;
                assert(entries[i + 1].0 == key);
                assert forall|j: int| 0 <= j < i + 1 implies entries[j].0 != key by {
                    if j > 0 {
                        assert(entries.drop_first()[j - 1] == entries[j]);
                    }
                }
            }
        } else {
            assert(entries[0].0 == key);
        }
    }
}

/// Looking up a name in entries that end with a new name finds what the earlier
/// entries hold, or the new value when the name is the new one.
pub proof fn lemma_lookup_push(
    entries: Seq<(Seq<char>, NbtValue)>,
    name: Seq<char>,
    v: NbtValue,
    key: Seq<char>,
)
    requires
        !has_key(entries, name),
    ensures
        lookup(entries.push((name, v)), key) == if key == name {
            Some(v)
        } else {
            lookup(entries, key)
        },
    decreases entries.len(),
{
    assert(entries.push((name, v))[entries.len() as int] == (name, v));
    if entries.len() == 0 {
        assert(entries.push((name, v)).drop_first() =~= Seq::<(Seq<char>, NbtValue)>::empty());
        assert(lookup(entries.push((name, v)).drop_first(), key) is None);
        assert(lookup(entries, key) is None);
    } else {
        assert(entries.push((name, v))[0] == entries[0]);
        assert(entries.push((name, v)).drop_first() =~= entries.drop_first().push((name, v)));
        if !has_key(entries.drop_first(), name) {
            lemma_lookup_push(entries.drop_first(), name, v, key);
        } else {
            let i = choose|i: int|
                0 <= i < entries.drop_first().len() && #[trigger] entries.drop_first()[i].0 == name;
            assert(entries[i + 1].0 == name);
        }
        assert(entries[0].0 != name);
    }
}

/// The entries of a compound after putting each of `items` in order: an entry
/// whose name is already present is skipped.
pub open spec fn put_all(items: Seq<(Seq<char>, NbtValue)>) -> Seq<(Seq<char>, NbtValue)>
    decreases items.len(),
{
    if items.len() == 0 {
        Seq::empty()
    } else {
        let before = put_all(items.drop_last());
        if has_key(before, items.last().0) {
            before
        } else {
            before.push(items.last())
        }
    }
}

impl NbtCompound {
    /// The compound of the entries, put in order; see `put_all`.
    pub fn from_iter(iter: Vec<(String, NbtTag)>) -> (c: NbtCompound)
        ensures
            c@ == put_all(entry_values(iter@)),
    {
        let ghost items = iter@;
        let ghost n = items.len() as int;
        proof {
            lemma_entry_values(items);
        }
        let mut rest = iter;
        let mut reversed: Vec<(String, NbtTag)> = Vec::new();
        while rest.len() > 0
            invariant
                n == items.len(),
                rest@ == items.take(rest@.len() as int),
                rest@.len() <= n,
                reversed@.len() == n - rest@.len(),
                forall|j: int| 0 <= j < reversed@.len() ==> #[trigger] reversed@[j] == items[n - 1 - j],
            decreases rest.len(),
        {
            let e = rest.pop().unwrap();
            reversed.push(e);
            assert(rest@ =~= items.take(rest@.len() as int));
        }
        let mut compound = NbtCompound::new();
        while reversed.len() > 0
            invariant
                n == items.len(),
                reversed@.len() <= n,
                forall|j: int| 0 <= j < reversed@.len() ==> #[trigger] reversed@[j] == items[n - 1 - j],
                compound@ == put_all(entry_values(items).take(n - reversed@.len())),
                entry_values(items).len() == n,
                forall|i: int| 0 <= i < n ==> #[trigger] entry_values(items)[i] == (items[i].0@, super::value::tag_value(items[i].1)),
            decreases reversed.len(),
        {
            let ghost k = n - reversed@.len();
            let (key, value) = reversed.pop().unwrap();
            assert(entry_values(items).take(k + 1).drop_last() =~= entry_values(items).take(k));
            compound.put(key.as_str(), value);
        }
        assert(entry_values(items).take(n) =~= entry_values(items));
        compound
    }

    pub fn new() -> (c: NbtCompound)
        ensures
            c@ == Seq::<(Seq<char>, NbtValue)>::empty(),
    {
        NbtCompound { child_tags: Vec::new() }
    }

    /// The first entry with the given name.
    pub fn get(&self, name: &str) -> (r: Option<&NbtTag>)
        ensures
            r is Some <==> lookup(self@, name@) is Some,
            r is Some ==> lookup(self@, name@)->Some_0 == r->Some_0@,
    {
        let key = name.to_owned();
        let len = self.child_tags.len();
        proof {
            lemma_entry_values(self.child_tags@);
            assert(self@.subrange(0, len as int) =~= self@);
        }
        let mut i: usize = 0;
        while i < len
            invariant
                len == self.child_tags@.len(),
                len == self@.len(),
                i <= len,
                key@ == name@,
                lookup(self@, name@) == lookup(self@.subrange(i as int, len as int), name@),
                forall|k: int|
                    0 <= k < len ==> #[trigger] self@[k] == (
                        self.child_tags@[k].0@,
                        super::value::tag_value(self.child_tags@[k].1),
                    ),
            decreases len - i,
        {
            let entry = &self.child_tags[i];
            if entry.0 == key {
                assert(self@.subrange(i as int, len as int)[0] == self@[i as int]);
                return Some(&entry.1);
            }
            assert(self@.subrange(i as int, len as int).drop_first() =~= self@.subrange(
                i + 1,
                len as int,
            ));
            i = i + 1;
        }
        None
    }

    /// Adds an entry unless an entry with that name is already present.
    pub fn put(&mut self, name: &str, value: NbtTag)
        ensures
            final(self)@ == if has_key(old(self)@, name@) {
                old(self)@
            } else {
                old(self)@.push((name@, value@))
            },
    {
        let key = name.to_owned();
        let len = self.child_tags.len();
        proof {
            lemma_entry_values(self.child_tags@);
        }
        let mut i: usize = 0;
        while i < len
            invariant
                len == self.child_tags@.len(),
                len == self@.len(),
                i <= len,
                key@ == name@,
                forall|k: int| 0 <= k < i ==> #[trigger] self@[k].0 != name@,
                forall|k: int|
                    0 <= k < len ==> #[trigger] self@[k] == (
                        self.child_tags@[k].0@,
                        super::value::tag_value(self.child_tags@[k].1),
                    ),
            decreases len - i,
        {
            if self.child_tags[i].0 == key {
                assert(self@[i as int].0 == name@);
                return;
            }
            i = i + 1;
        }
        assert(!has_key(self@, name@));
        self.child_tags.push((key, value));
        proof {
            assert(self.child_tags@.drop_last() =~= old(self).child_tags@);
        }
    }

    pub fn put_byte(&mut self, name: &str, value: i8)
        ensures
            final(self)@ == if has_key(old(self)@, name@) {
                old(self)@
            } else {
                old(self)@.push((name@, NbtValue::Byte(value)))
            },
    {
        self.put(name, NbtTag::Byte(value));
    }

    /// Stores `true` as the byte 1 and `false` as 0.
    pub fn put_bool(&mut self, name: &str, value: bool)
        ensures
            final(self)@ == if has_key(old(self)@, name@) {
                old(self)@
            } else {
                old(self)@.push((name@, NbtValue::Byte(if value { 1 } else { 0 })))
            },
    {
        self.put(name, NbtTag::Byte(if value { 1 } else { 0 }));
    }

    pub fn put_short(&mut self, name: &str, value: i16)
        ensures
            final(self)@ == if has_key(old(self)@, name@) {
                old(self)@
            } else {
                old(self)@.push((name@, NbtValue::Short(value)))
            },
    {
        self.put(name, NbtTag::Short(value));
    }

    pub fn put_int(&mut self, name: &str, value: i32)
        ensures
            final(self)@ == if has_key(old(self)@, name@) {
                old(self)@
            } else {
                old(self)@.push((name@, NbtValue::Int(value)))
            },
    {
        self.put(name, NbtTag::Int(value));
    }

    pub fn put_long(&mut self, name: &str, value: i64)
        ensures
            final(self)@ == if has_key(old(self)@, name@) {
                old(self)@
            } else {
                old(self)@.push((name@, NbtValue::Long(value)))
            },
    {
        self.put(name, NbtTag::Long(value));
    }

    /// Stores a float given by its bit pattern.
    pub fn put_float(&mut self, name: &str, bits: u32)
        ensures
            final(self)@ == if has_key(old(self)@, name@) {
                old(self)@
            } else {
                old(self)@.push((name@, NbtValue::Float(bits)))
            },
    {
        self.put(name, NbtTag::Float(bits));
    }

    /// Stores a double given by its bit pattern.
    pub fn put_double(&mut self, name: &str, bits: u64)
        ensures
            final(self)@ == if has_key(old(self)@, name@) {
                old(self)@
            } else {
                old(self)@.push((name@, NbtValue::Double(bits)))
            },
    {
        self.put(name, NbtTag::Double(bits));
    }

    pub fn put_component(&mut self, name: &str, value: NbtCompound)
        ensures
            final(self)@ == if has_key(old(self)@, name@) {
                old(self)@
            } else {
                old(self)@.push((name@, NbtValue::Compound(value@)))
            },
    {
        self.put(name, NbtTag::Compound(value));
    }

    pub fn get_byte(&self, name: &str) -> (r: Option<i8>)
        ensures
            r == match lookup(self@, name@) {
                Some(NbtValue::Byte(v)) => Some(v),
                _ => None::<i8>,
            },
    {
        match self.get(name) {
            Some(tag) => tag.extract_byte(),
            None => None,
        }
    }

    pub fn get_short(&self, name: &str) -> (r: Option<i16>)
        ensures
            r == match lookup(self@, name@) {
                Some(NbtValue::Short(v)) => Some(v),
                _ => None::<i16>,
            },
    {
        match self.get(name) {
            Some(tag) => tag.extract_short(),
            None => None,
        }
    }

    pub fn get_int(&self, name: &str) -> (r: Option<i32>)
        ensures
            r == match lookup(self@, name@) {
                Some(NbtValue::Int(v)) => Some(v),
                _ => None::<i32>,
            },
    {
        match self.get(name) {
            Some(tag) => tag.extract_int(),
            None => None,
        }
    }

    pub fn get_long(&self, name: &str) -> (r: Option<i64>)
        ensures
            r == match lookup(self@, name@) {
                Some(NbtValue::Long(v)) => Some(v),
                _ => None::<i64>,
            },
    {
        match self.get(name) {
            Some(tag) => tag.extract_long(),
            None => None,
        }
    }

    /// The bit pattern of a float entry.
    pub fn get_float(&self, name: &str) -> (r: Option<u32>)
        ensures
            r == match lookup(self@, name@) {
                Some(NbtValue::Float(v)) => Some(v),
                _ => None::<u32>,
            },
    {
        match self.get(name) {
            Some(tag) => tag.extract_float(),
            None => None,
        }
    }

    /// The bit pattern of a double entry.
    pub fn get_double(&self, name: &str) -> (r: Option<u64>)
        ensures
            r == match lookup(self@, name@) {
                Some(NbtValue::Double(v)) => Some(v),
                _ => None::<u64>,
            },
    {
        match self.get(name) {
            Some(tag) => tag.extract_double(),
            None => None,
        }
    }

    /// A byte entry read as a flag: any non-zero byte is `true`.
    pub fn get_bool(&self, name: &str) -> (r: Option<bool>)
        ensures
            r == match lookup(self@, name@) {
                Some(NbtValue::Byte(v)) => Some(v != 0),
                _ => None::<bool>,
            },
    {
        match self.get(name) {
            Some(tag) => tag.extract_bool(),
            None => None,
        }
    }

    pub fn get_string(&self, name: &str) -> (r: Option<&String>)
        ensures
            r is Some <==> lookup(self@, name@) matches Some(NbtValue::String(_)),
            r is Some ==> lookup(self@, name@) == Some(NbtValue::String(r->Some_0@)),
    {
        match self.get(name) {
            Some(tag) => tag.extract_string(),
            None => None,
        }
    }

    pub fn get_list(&self, name: &str) -> (r: Option<&[NbtTag]>)
        ensures
            r is Some <==> lookup(self@, name@) matches Some(NbtValue::List(_)),
            r is Some ==> lookup(self@, name@) == Some(
                NbtValue::List(super::value::list_values(r->Some_0@)),
            ),
    {
        match self.get(name) {
            Some(tag) => tag.extract_list(),
            None => None,
        }
    }

    pub fn get_compound(&self, name: &str) -> (r: Option<&NbtCompound>)
        ensures
            r is Some <==> lookup(self@, name@) matches Some(NbtValue::Compound(_)),
            r is Some ==> lookup(self@, name@) == Some(NbtValue::Compound(r->Some_0@)),
    {
        match self.get(name) {
            Some(tag) => tag.extract_compound(),
            None => None,
        }
    }

    pub fn get_int_array(&self, name: &str) -> (r: Option<&[i32]>)
        ensures
            r is Some <==> lookup(self@, name@) matches Some(NbtValue::IntArray(_)),
            r is Some ==> lookup(self@, name@) == Some(NbtValue::IntArray(r->Some_0@)),
    {
        match self.get(name) {
            Some(tag) => tag.extract_int_array(),
            None => None,
        }
    }

    pub fn get_long_array(&self, name: &str) -> (r: Option<&[i64]>)
        ensures
            r is Some <==> lookup(self@, name@) matches Some(NbtValue::LongArray(_)),
            r is Some ==> lookup(self@, name@) == Some(NbtValue::LongArray(r->Some_0@)),
    {
        match self.get(name) {
            Some(tag) => tag.extract_long_array(),
            None => None,
        }
    }
}

} // verus!
