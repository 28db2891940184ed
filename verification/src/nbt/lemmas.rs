//! Facts about the views of tags and compounds.
use vstd::prelude::*;

use super::error::Error;
use super::format::{
    entries_strings_roundtrip, items_strings_roundtrip, ser_entries, ser_items, ser_payload,
    ser_string, string_roundtrips, strings_roundtrip, value_type_id,
};
use super::value::{entry_values, list_values, tag_value, NbtTag, NbtValue};

verus! {

pub proof fn lemma_list_values(s: Seq<NbtTag>)
    ensures
        list_values(s).len() == s.len(),
        forall|i: int| 0 <= i < s.len() ==> #[trigger] list_values(s)[i] == tag_value(s[i]),
    decreases s.len(),
{
    if s.len() > 0 {
        lemma_list_values(s.drop_last());
        assert forall|i: int| 0 <= i < s.len() implies #[trigger] list_values(s)[i] == tag_value(
            s[i],
        ) by {
            if i < s.len() - 1 {
                assert(s.drop_last()[i] == s[i]);
            }
        }
    }
}

pub proof fn lemma_entry_values(s: Seq<(String, NbtTag)>)
    ensures
        entry_values(s).len() == s.len(),
        forall|i: int|
            0 <= i < s.len() ==> #[trigger] entry_values(s)[i] == (s[i].0@, tag_value(s[i].1)),
    decreases s.len(),
{
    if s.len() > 0 {
        lemma_entry_values(s.drop_last());
        assert forall|i: int| 0 <= i < s.len() implies #[trigger] entry_values(s)[i] == (
            s[i].0@,
            tag_value(s[i].1),
        ) by {
            if i < s.len() - 1 {
                assert(s.drop_last()[i] == s[i]);
            }
        }
    }
}

/// The views of a prefix are the prefix of the views.
pub proof fn lemma_list_values_prefix(s: Seq<NbtTag>, i: int)
    requires
        0 <= i < s.len(),
    ensures
        list_values(s.subrange(0, i + 1)) == list_values(s.subrange(0, i)).push(tag_value(s[i])),
{
    assert(s.subrange(0, i + 1).drop_last() =~= s.subrange(0, i));
}

pub proof fn lemma_entry_values_prefix(s: Seq<(String, NbtTag)>, i: int)
    requires
        0 <= i < s.len(),
    ensures
        entry_values(s.subrange(0, i + 1)) == entry_values(s.subrange(0, i)).push(
            (s[i].0@, tag_value(s[i].1)),
        ),
{
    assert(s.subrange(0, i + 1).drop_last() =~= s.subrange(0, i));
}

/// Once a prefix of the items fails to encode, so do the items.
pub proof fn lemma_ser_items_err(s: Seq<NbtValue>, k: int)
    requires
        0 <= k <= s.len(),
        ser_items(s.subrange(0, k)) is Err,
    ensures
        ser_items(s) == ser_items(s.subrange(0, k)),
    decreases s.len(),
{
    if s.len() == k {
        assert(s.subrange(0, k) =~= s);
    } else {
        assert(s.drop_last().subrange(0, k) =~= s.subrange(0, k));
        lemma_ser_items_err(s.drop_last(), k);
    }
}

/// Once a prefix of the entries fails to encode, so do the entries.
pub proof fn lemma_ser_entries_err(s: Seq<(Seq<char>, NbtValue)>, k: int)
    requires
        0 <= k <= s.len(),
        ser_entries(s.subrange(0, k)) is Err,
    ensures
        ser_entries(s) == ser_entries(s.subrange(0, k)),
    decreases s.len(),
{
    if s.len() == k {
        assert(s.subrange(0, k) =~= s);
    } else {
        assert(s.drop_last().subrange(0, k) =~= s.subrange(0, k));
        lemma_ser_entries_err(s.drop_last(), k);
    }
}

/// Encoding one more item appends its payload.
pub proof fn lemma_ser_items_push(s: Seq<NbtValue>, v: NbtValue)
    ensures
        ser_items(s.push(v)) == match ser_items(s) {
            Err(e) => Err(e),
            Ok(b) => match ser_payload(v) {
                Ok(c) => Ok(b + c),
                Err(e) => Err::<Seq<u8>, Error>(e),
            },
        },
{
    assert(s.push(v).drop_last() =~= s);
    assert(s.push(v)[s.push(v).len() - 1] == v);
}

/// Encoding one more entry appends its type id, name and payload.
pub proof fn lemma_ser_entries_push(s: Seq<(Seq<char>, NbtValue)>, name: Seq<char>, v: NbtValue)
    ensures
        ser_entries(s.push((name, v))) == match ser_entries(s) {
            Err(e) => Err(e),
            Ok(b) => match ser_string(name) {
                Err(e) => Err(e),
                Ok(n) => match ser_payload(v) {
                    Ok(p) => Ok(b + seq![value_type_id(v)] + n + p),
                    Err(e) => Err::<Seq<u8>, Error>(e),
                },
            },
        },
{
    assert(s.push((name, v)).drop_last() =~= s);
    assert(s.push((name, v))[s.push((name, v)).len() - 1] == (name, v));
}

pub proof fn lemma_items_strings_push(s: Seq<NbtValue>, v: NbtValue)
    ensures
        items_strings_roundtrip(s.push(v)) == (items_strings_roundtrip(s) && strings_roundtrip(v)),
{
    assert(s.push(v).drop_last() =~= s);
    assert(s.push(v)[s.push(v).len() - 1] == v);
}

pub proof fn lemma_entries_strings_push(s: Seq<(Seq<char>, NbtValue)>, name: Seq<char>, v: NbtValue)
    ensures
        entries_strings_roundtrip(s.push((name, v))) == (entries_strings_roundtrip(s)
            && string_roundtrips(name) && strings_roundtrip(v)),
{
    assert(s.push((name, v)).drop_last() =~= s);
    assert(s.push((name, v))[s.push((name, v)).len() - 1] == (name, v));
}

} // verus!
