//! The shape that NBT values must have for their encoding to read back as the
//! same value, and the facts about encodings that the laws rest on.
use vstd::prelude::*;

use super::format::{
    entries_strings_roundtrip, has_key, items_strings_roundtrip, keep_first, list_elem_id,
    ser_entries, ser_items, ser_payload, ser_string, string_roundtrips, strings_roundtrip,
    value_type_id,
};
use super::value::NbtValue;

verus! {

/// Every list inside `v` holds tags of a single type, and every compound inside
/// `v` holds distinct names and no end tag.
pub open spec fn well_formed(v: NbtValue) -> bool
    decreases v,
{
    match v {
        NbtValue::List(items) => items_well_formed(items) && same_type(items),
        NbtValue::Compound(entries) => entries_well_formed(entries),
        _ => true,
    }
}

/// All items have the type that the list announces.
pub open spec fn same_type(items: Seq<NbtValue>) -> bool {
    forall|i: int| 0 <= i < items.len() ==> #[trigger] value_type_id(items[i]) == list_elem_id(items)
}

pub open spec fn items_well_formed(items: Seq<NbtValue>) -> bool
    decreases items,
{
    if items.len() == 0 {
        true
    } else {
        items_well_formed(items.drop_last()) && well_formed(items[items.len() - 1])
    }
}

pub open spec fn entries_well_formed(entries: Seq<(Seq<char>, NbtValue)>) -> bool
    decreases entries,
{
    if entries.len() == 0 {
        true
    } else {
        let last = entries[entries.len() - 1];
        &&& entries_well_formed(entries.drop_last())
        &&& !has_key(entries.drop_last(), last.0)
        &&& !(last.1 is End)
        &&& well_formed(last.1)
    }
}

/// Names of distinct entries differ.
pub open spec fn distinct_names(entries: Seq<(Seq<char>, NbtValue)>) -> bool {
    forall|i: int, j: int|
        0 <= i < j < entries.len() ==> #[trigger] entries[i].0 != #[trigger] entries[j].0
}

pub proof fn lemma_items_well_formed(items: Seq<NbtValue>)
    ensures
        items_well_formed(items) <==> forall|i: int|
            0 <= i < items.len() ==> #[trigger] well_formed(items[i]),
        items_strings_roundtrip(items) <==> forall|i: int|
            0 <= i < items.len() ==> #[trigger] strings_roundtrip(items[i]),
    decreases items.len(),
{
    if items.len() > 0 {
        let init = items.drop_last();
        let n = items.len() - 1;
        lemma_items_well_formed(init);
        if items_well_formed(items) {
            assert forall|i: int| 0 <= i < items.len() implies #[trigger] well_formed(items[i]) by {
                if i < n {
                    assert(init[i] == items[i]);
                }
            }
        }
        if forall|i: int| 0 <= i < items.len() ==> #[trigger] well_formed(items[i]) {
            assert forall|i: int| 0 <= i < init.len() implies #[trigger] well_formed(init[i]) by {
                assert(init[i] == items[i]);
                assert(well_formed(items[i]));
            }
            assert(well_formed(items[n]));
        }
        if items_strings_roundtrip(items) {
            assert forall|i: int| 0 <= i < items.len() implies #[trigger] strings_roundtrip(
                items[i],
            ) by {
                if i < n {
                    assert(init[i] == items[i]);
                }
            }
        }
        if forall|i: int| 0 <= i < items.len() ==> #[trigger] strings_roundtrip(items[i]) {
            assert forall|i: int| 0 <= i < init.len() implies #[trigger] strings_roundtrip(
                init[i],
            ) by {
                assert(init[i] == items[i]);
                assert(strings_roundtrip(items[i]));
            }
            assert(strings_roundtrip(items[n]));
        }
    }
}

/// Compound entries are well formed exactly when their names are distinct and
/// each value is well formed and no end tag.
pub proof fn lemma_entries_well_formed(entries: Seq<(Seq<char>, NbtValue)>)
    ensures
        entries_well_formed(entries) <==> (distinct_names(entries) && forall|i: int|
            0 <= i < entries.len() ==> #[trigger] well_formed(entries[i].1) && !(
            entries[i].1 is End)),
        entries_strings_roundtrip(entries) <==> forall|i: int|
            0 <= i < entries.len() ==> #[trigger] strings_roundtrip(entries[i].1)
                && string_roundtrips(entries[i].0),
    decreases entries.len(),
{
    if entries.len() > 0 {
        let init = entries.drop_last();
        let n = entries.len() - 1;
        lemma_entries_well_formed(init);
        if entries_well_formed(entries) {
            assert forall|i: int, j: int| 0 <= i < j < entries.len() implies #[trigger] entries[i].0
                != #[trigger] entries[j].0 by {
                assert(init[i] == entries[i]);
                if j < n {
                    assert(init[j] == entries[j]);
                    assert(init[i].0 != init[j].0);
                } else if entries[i].0 == entries[j].0 {
                    assert(init[i].0 == entries[n].0);
                    assert(has_key(init, entries[n].0));
                }
            }
            assert forall|i: int| 0 <= i < entries.len() implies #[trigger] well_formed(
                entries[i].1,
            ) && !(entries[i].1 is End) by {
                if i < n {
                    assert(init[i] == entries[i]);
                    assert(well_formed(init[i].1));
                }
            }
        }
        if distinct_names(entries) && forall|i: int|
            0 <= i < entries.len() ==> #[trigger] well_formed(entries[i].1) && !(
            entries[i].1 is End) {
            assert forall|i: int, j: int| 0 <= i < j < init.len() implies #[trigger] init[i].0
                != #[trigger] init[j].0 by {
                assert(init[i] == entries[i]);
                assert(init[j] == entries[j]);
                assert(entries[i].0 != entries[j].0);
            }
            assert forall|i: int| 0 <= i < init.len() implies #[trigger] well_formed(init[i].1)
                && !(init[i].1 is End) by {
                assert(init[i] == entries[i]);
                assert(well_formed(entries[i].1));
            }
            if has_key(init, entries[n].0) {
                let k = choose|k: int| 0 <= k < init.len() && #[trigger] init[k].0 == entries[n].0;
                assert(init[k] == entries[k]);
                assert(entries[k].0 != entries[n].0);
            }
            assert(well_formed(entries[n].1));
        }
        if entries_strings_roundtrip(entries) {
            assert forall|i: int| 0 <= i < entries.len() implies #[trigger] strings_roundtrip(
                entries[i].1,
            ) && string_roundtrips(entries[i].0) by {
                if i < n {
                    assert(init[i] == entries[i]);
                    assert(strings_roundtrip(init[i].1));
                }
            }
        }
        if forall|i: int|
            0 <= i < entries.len() ==> #[trigger] strings_roundtrip(entries[i].1)
                && string_roundtrips(entries[i].0) {
            assert forall|i: int| 0 <= i < init.len() implies #[trigger] strings_roundtrip(
                init[i].1,
            ) && string_roundtrips(init[i].0) by {
                assert(init[i] == entries[i]);
                assert(strings_roundtrip(entries[i].1));
            }
            assert(strings_roundtrip(entries[n].1));
        }
    }
}

/// Keeping the first entry of each name changes nothing when the names are distinct.
pub proof fn lemma_keep_first_distinct(entries: Seq<(Seq<char>, NbtValue)>)
    requires
        distinct_names(entries),
    ensures
        keep_first(entries) == entries,
    decreases entries.len(),
{
    if entries.len() > 0 {
        let init = entries.drop_last();
        let n = entries.len() - 1;
        assert forall|i: int, j: int| 0 <= i < j < init.len() implies #[trigger] init[i].0
            != #[trigger] init[j].0 by {
            assert(entries[i].0 != entries[j].0);
        }
        lemma_keep_first_distinct(init);
        if has_key(init, entries[n].0) {
            let k = choose|k: int| 0 <= k < init.len() && #[trigger] init[k].0 == entries[n].0;
            assert(entries[k].0 != entries[n].0);
        }
        assert(init.push(entries.last()) =~= entries);
    }
}

/// The payloads of a list that starts with `v` are the payload of `v` followed
/// by those of the rest.
pub proof fn lemma_ser_items_cons(v: NbtValue, rest: Seq<NbtValue>)
    requires
        ser_items(seq![v] + rest) is Ok,
    ensures
        ser_payload(v) is Ok,
        ser_items(rest) is Ok,
        ser_items(seq![v] + rest)->Ok_0 == ser_payload(v)->Ok_0 + ser_items(rest)->Ok_0,
    decreases rest.len(),
{
    let s = seq![v] + rest;
    if rest.len() == 0 {
        assert(s.drop_last() =~= Seq::<NbtValue>::empty());
        assert(s[s.len() - 1] == v);
        assert(ser_payload(v)->Ok_0 + Seq::<u8>::empty() =~= ser_payload(v)->Ok_0);
        assert(Seq::<u8>::empty() + ser_payload(v)->Ok_0 =~= ser_payload(v)->Ok_0);
    } else {
        let last = rest[rest.len() - 1];
        assert(s.drop_last() =~= seq![v] + rest.drop_last());
        assert(s[s.len() - 1] == last);
        lemma_ser_items_cons(v, rest.drop_last());
        let a = ser_payload(v)->Ok_0;
        let b = ser_items(rest.drop_last())->Ok_0;
        let c = ser_payload(last)->Ok_0;
        assert(ser_items(s)->Ok_0 == ser_items(s.drop_last())->Ok_0 + c);
        assert(ser_items(rest)->Ok_0 == b + c);
        assert((a + b) + c =~= a + (b + c));
    }
}

/// The bytes of one compound entry: its type id, its name and its payload.
pub open spec fn entry_bytes(name: Seq<char>, v: NbtValue) -> Seq<u8> {
    seq![value_type_id(v)] + ser_string(name)->Ok_0 + ser_payload(v)->Ok_0
}

/// The entries of a compound that starts with `e` are those of `e` followed by
/// those of the rest.
pub proof fn lemma_ser_entries_cons(e: (Seq<char>, NbtValue), rest: Seq<(Seq<char>, NbtValue)>)
    requires
        ser_entries(seq![e] + rest) is Ok,
    ensures
        ser_string(e.0) is Ok,
        ser_payload(e.1) is Ok,
        ser_entries(rest) is Ok,
        ser_entries(seq![e] + rest)->Ok_0 == entry_bytes(e.0, e.1) + ser_entries(rest)->Ok_0,
    decreases rest.len(),
{
    let s = seq![e] + rest;
    if rest.len() == 0 {
        assert(s.drop_last() =~= Seq::<(Seq<char>, NbtValue)>::empty());
        assert(s[s.len() - 1] == e);
        assert(entry_bytes(e.0, e.1) + Seq::<u8>::empty() =~= entry_bytes(e.0, e.1));
        assert(Seq::<u8>::empty() + seq![value_type_id(e.1)] + ser_string(e.0)->Ok_0
            + ser_payload(e.1)->Ok_0 =~= entry_bytes(e.0, e.1));
    } else {
        let last = rest[rest.len() - 1];
        assert(s.drop_last() =~= seq![e] + rest.drop_last());
        assert(s[s.len() - 1] == last);
        lemma_ser_entries_cons(e, rest.drop_last());
        let a = entry_bytes(e.0, e.1);
        let b = ser_entries(rest.drop_last())->Ok_0;
        let c = seq![value_type_id(last.1)] + ser_string(last.0)->Ok_0 + ser_payload(
            last.1,
        )->Ok_0;
        assert(ser_entries(s)->Ok_0 == ser_entries(s.drop_last())->Ok_0 + c);
        assert(ser_entries(rest)->Ok_0 == b + c);
        assert((a + b) + c =~= a + (b + c));
    }
}

} // verus!
