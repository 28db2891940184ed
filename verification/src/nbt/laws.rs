//! Laws of the NBT format that span several operations.
use vstd::prelude::*;

use super::compound::lemma_lookup_push;
use super::format::{
    entries_strings_roundtrip, has_key, keep_first, list_elem_id, lookup, parse_document,
    parse_entries, parse_list_items, parse_payload, parse_string, ser_document, ser_entries,
    ser_payload, ser_string, skip_entries, skip_list_items, skip_payload, string_roundtrips,
    value_type_id,
};
use super::parse_lemmas::{lemma_parse_entries_bounds, lemma_parse_payload_bounds};
use super::roundtrip::{lemma_parse_entries, lemma_parse_string, lemma_split};
use super::compress::gzip_decoding;
use super::shape::{
    entries_well_formed, lemma_entries_well_formed, lemma_items_well_formed,
    lemma_keep_first_distinct, same_type, well_formed,
};
use super::value::{NbtValue, COMPOUND_ID, END_ID, LIST_ID};

verus! {

/// The compound that `put` leaves: unchanged when the name is present, else
/// extended by the new entry.
pub open spec fn put_entry(entries: Seq<(Seq<char>, NbtValue)>, name: Seq<char>, v: NbtValue) -> Seq<
    (Seq<char>, NbtValue),
> {
    if has_key(entries, name) {
        entries
    } else {
        entries.push((name, v))
    }
}

/// Reading a written document gives back its root compound, and its root name
/// when the name was written; reading stops at the end of the document.
pub proof fn law_document_roundtrip(
    name: Seq<char>,
    entries: Seq<(Seq<char>, NbtValue)>,
    named: bool,
)
    requires
        entries_well_formed(entries),
        entries_strings_roundtrip(entries),
        named ==> string_roundtrips(name),
        ser_document(name, entries, named) is Ok,
    ensures
        parse_document(ser_document(name, entries, named)->Ok_0, 0, named) == Ok::<
            (Seq<char>, Seq<(Seq<char>, NbtValue)>, int),
            super::error::Error,
        >(
            (
                if named {
                    name
                } else {
                    Seq::empty()
                },
                entries,
                ser_document(name, entries, named)->Ok_0.len() as int,
            ),
        ),
{
    let data = ser_document(name, entries, named)->Ok_0;
    let n = if named {
        ser_string(name)->Ok_0
    } else {
        Seq::<u8>::empty()
    };
    let body = ser_entries(entries)->Ok_0;
    assert(ser_payload(NbtValue::Compound(entries))->Ok_0 == body.push(END_ID));
    assert(data =~= seq![COMPOUND_ID] + (n + (body + seq![END_ID])));
    assert(data.subrange(0, data.len() as int) =~= data);
    lemma_split(data, 0, seq![COMPOUND_ID], n + (body + seq![END_ID]));
    lemma_split(data, 1, n, body + seq![END_ID]);
    assert(data[0] == COMPOUND_ID);
    if named {
        lemma_parse_string(name, data, 1);
    }
    lemma_entries_well_formed(entries);
    lemma_parse_entries(entries, data, 1 + n.len() as int);
    lemma_keep_first_distinct(entries);
}

/// Reading a compressed document gives back the compound that was written
/// into it (with an empty root name).
pub proof fn law_gzip_roundtrip(entries: Seq<(Seq<char>, NbtValue)>, compressed: Seq<u8>)
    requires
        entries_well_formed(entries),
        entries_strings_roundtrip(entries),
        string_roundtrips(Seq::empty()),
        ser_document(Seq::empty(), entries, true) is Ok,
        gzip_decoding(compressed) == Some(ser_document(Seq::empty(), entries, true)->Ok_0),
    ensures
        gzip_decoding(compressed) is Some,
        parse_document(gzip_decoding(compressed)->Some_0, 0, true) matches Ok((name, e, _)) && name
            == Seq::<char>::empty() && e == entries,
{
    law_document_roundtrip(Seq::empty(), entries, true);
}

/// After `put`, looking up the new name finds the new value unless the name
/// was already present; every other name finds what it found before.
pub proof fn law_get_after_put(
    entries: Seq<(Seq<char>, NbtValue)>,
    name: Seq<char>,
    v: NbtValue,
    key: Seq<char>,
)
    ensures
        lookup(put_entry(entries, name, v), key) == if key == name && !has_key(entries, name) {
            Some(v)
        } else {
            lookup(entries, key)
        },
{
    if !has_key(entries, name) {
        lemma_lookup_push(entries, name, v, key);
    }
}

/// `put` keeps a compound well formed when the value is well formed and no end tag.
pub proof fn law_put_keeps_well_formed(
    entries: Seq<(Seq<char>, NbtValue)>,
    name: Seq<char>,
    v: NbtValue,
)
    requires
        entries_well_formed(entries),
        well_formed(v),
        !(v is End),
    ensures
        entries_well_formed(put_entry(entries, name, v)),
{
    if !has_key(entries, name) {
        assert(entries.push((name, v)).drop_last() =~= entries);
    }
}

/// Skipping a tag moves past exactly the bytes that reading it consumes.
pub proof fn law_skip_agrees_with_read(data: Seq<u8>, pos: int, id: u8)
    ensures
        parse_payload(data, pos, id) is Ok ==> skip_payload(data, pos, id) == Ok::<
            int,
            super::error::Error,
        >(parse_payload(data, pos, id)->Ok_0.1),
    decreases data.len() - pos, 1int, 0int,
{
    if 0 <= pos <= data.len() {
        if id == LIST_ID && pos + 5 <= data.len() {
            let n = super::bytes::i32_at(data, pos + 1);
            if n >= 0 {
                lemma_skip_items_agrees(data, pos + 5, data[pos], n as nat);
            }
        } else if id == COMPOUND_ID {
            lemma_skip_entries_agrees(data, pos);
        }
    }
}

proof fn lemma_skip_items_agrees(data: Seq<u8>, pos: int, id: u8, n: nat)
    ensures
        parse_list_items(data, pos, id, n) is Ok ==> skip_list_items(data, pos, id, n) == Ok::<
            int,
            super::error::Error,
        >(parse_list_items(data, pos, id, n)->Ok_0.1),
    decreases data.len() - pos, 2int, n,
{
    if 0 <= pos <= data.len() && n > 0 {
        law_skip_agrees_with_read(data, pos, id);
        if let Ok((v, p)) = parse_payload(data, pos, id) {
            if pos <= p <= data.len() {
                lemma_skip_items_agrees(data, p, id, (n - 1) as nat);
            }
        }
    }
}

proof fn lemma_skip_entries_agrees(data: Seq<u8>, pos: int)
    ensures
        parse_entries(data, pos) is Ok ==> skip_entries(data, pos) == Ok::<
            int,
            super::error::Error,
        >(parse_entries(data, pos)->Ok_0.1),
    decreases data.len() - pos, 0int, 0int,
{
    if 0 <= pos < data.len() && data[pos] != END_ID {
        if let Ok((name, p1)) = parse_string(data, pos + 1) {
            if pos < p1 <= data.len() {
                law_skip_agrees_with_read(data, p1, data[pos]);
                if let Ok((v, p2)) = parse_payload(data, p1, data[pos]) {
                    if p1 <= p2 <= data.len() {
                        lemma_skip_entries_agrees(data, p2);
                    }
                }
            }
        }
    }
}

/// Every value is well formed and no end tag.
spec fn values_well_formed(entries: Seq<(Seq<char>, NbtValue)>) -> bool {
    forall|i: int|
        0 <= i < entries.len() ==> #[trigger] well_formed(entries[i].1) && !(entries[i].1 is End)
}

/// Keeping the first entry of each name from well-formed entries gives a
/// well-formed compound.
proof fn lemma_keep_first_well_formed(entries: Seq<(Seq<char>, NbtValue)>)
    requires
        values_well_formed(entries),
    ensures
        entries_well_formed(keep_first(entries)),
    decreases entries.len(),
{
    if entries.len() > 0 {
        let init = entries.drop_last();
        assert forall|i: int| 0 <= i < init.len() implies #[trigger] well_formed(init[i].1) && !(
        init[i].1 is End) by {
            assert(init[i] == entries[i]);
            assert(well_formed(entries[i].1));
        }
        lemma_keep_first_well_formed(init);
        let kept = keep_first(init);
        let last = entries[entries.len() - 1];
        assert(well_formed(last.1));
        if !has_key(kept, last.0) {
            assert(kept.push(last).drop_last() =~= kept);
            assert(kept.push(last)[kept.len() as int] == last);
        }
    }
}

/// What a read yields is well formed, has the type that was asked for, and the
/// read ends between its start and the end of the data.
pub proof fn law_read_is_well_formed(data: Seq<u8>, pos: int, id: u8)
    ensures
        parse_payload(data, pos, id) is Ok ==> {
            let (v, p) = parse_payload(data, pos, id)->Ok_0;
            &&& well_formed(v)
            &&& value_type_id(v) == id
            &&& pos <= p <= data.len()
        },
    decreases data.len() - pos, 1int, 0int,
{
    lemma_parse_payload_bounds(data, pos, id);
    if 0 <= pos <= data.len() {
        if id == LIST_ID && pos + 5 <= data.len() {
            let n = super::bytes::i32_at(data, pos + 1);
            if n >= 0 {
                lemma_read_items_well_formed(data, pos + 5, data[pos], n as nat);
                if let Ok((items, p)) = parse_list_items(data, pos + 5, data[pos], n as nat) {
                    lemma_items_well_formed(items);
                    if items.len() > 0 {
                        assert(well_formed(items[0]));
                        assert(list_elem_id(items) == data[pos]);
                    }
                    assert forall|i: int| 0 <= i < items.len() implies #[trigger] value_type_id(
                        items[i],
                    ) == list_elem_id(items) by {
                        assert(well_formed(items[i]));
                    }
                    assert(same_type(items));
                }
            }
        } else if id == COMPOUND_ID {
            lemma_read_entries_well_formed(data, pos);
            if let Ok((entries, p)) = parse_entries(data, pos) {
                lemma_keep_first_well_formed(entries);
            }
        }
    }
}

proof fn lemma_read_items_well_formed(data: Seq<u8>, pos: int, id: u8, n: nat)
    ensures
        parse_list_items(data, pos, id, n) is Ok ==> {
            let (items, p) = parse_list_items(data, pos, id, n)->Ok_0;
            &&& items.len() == n
            &&& forall|i: int|
                0 <= i < items.len() ==> #[trigger] well_formed(items[i]) && value_type_id(
                    items[i],
                ) == id
        },
    decreases data.len() - pos, 2int, n,
{
    if 0 <= pos <= data.len() && n > 0 {
        law_read_is_well_formed(data, pos, id);
        if let Ok((v, p)) = parse_payload(data, pos, id) {
            if pos <= p <= data.len() {
                lemma_read_items_well_formed(data, p, id, (n - 1) as nat);
                if let Ok((rest, q)) = parse_list_items(data, p, id, (n - 1) as nat) {
                    let items = seq![v] + rest;
                    assert forall|i: int| 0 <= i < items.len() implies #[trigger] well_formed(
                        items[i],
                    ) && value_type_id(items[i]) == id by {
                        if i > 0 {
                            assert(items[i] == rest[i - 1]);
                        }
                    }
                }
            }
        }
    }
}

proof fn lemma_read_entries_well_formed(data: Seq<u8>, pos: int)
    ensures
        parse_entries(data, pos) is Ok ==> values_well_formed(parse_entries(data, pos)->Ok_0.0),
    decreases data.len() - pos, 0int, 0int,
{
    if 0 <= pos < data.len() && data[pos] != END_ID {
        if let Ok((name, p1)) = parse_string(data, pos + 1) {
            if pos < p1 <= data.len() {
                law_read_is_well_formed(data, p1, data[pos]);
                if let Ok((v, p2)) = parse_payload(data, p1, data[pos]) {
                    if p1 <= p2 <= data.len() {
                        lemma_read_entries_well_formed(data, p2);
                        if let Ok((rest, p3)) = parse_entries(data, p2) {
                            let entries = seq![(name, v)] + rest;
                            assert(!(v is End));
                            assert(parse_entries(data, pos) == Ok::<
                                (Seq<(Seq<char>, NbtValue)>, int),
                                super::error::Error,
                            >((entries, p3)));
                            assert(values_well_formed(entries)) by {
                                assert(entries[0] == (name, v));
                                assert forall|i: int| 0 <= i < entries.len() implies #[trigger] well_formed(
                                    entries[i].1,
                                ) && !(entries[i].1 is End) by {
                                    if i > 0 {
                                        assert(entries[i] == rest[i - 1]);
                                        assert(well_formed(rest[i - 1].1));
                                    }
                                }
                            }
                        }
                    }
                }
            }
        }
    }
}

} // verus!
