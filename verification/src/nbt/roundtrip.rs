//! Reading back what was written: the encoding of a well-formed value parses
//! to the same value, wherever it stands in a byte sequence.
use vstd::prelude::*;

use super::bytes::{
    lemma_i16_roundtrip, lemma_i32_roundtrip, lemma_i64_roundtrip, lemma_i8_roundtrip,
    lemma_u16_roundtrip, lemma_u32_roundtrip, lemma_u64_roundtrip, i32_bytes, u16_bytes,
};
use super::format::{
    ints_at, ints_bytes, list_elem_id, longs_at, longs_bytes, parse_entries, parse_list_items,
    parse_payload, parse_string, ser_entries, ser_items, ser_payload, ser_string,
    string_roundtrips, strings_roundtrip, value_type_id,
};
use super::java_string::java_cesu8_encoding;
use super::shape::{
    entry_bytes, lemma_entries_well_formed, lemma_items_well_formed, lemma_keep_first_distinct,
    lemma_ser_entries_cons, lemma_ser_items_cons, well_formed,
};
use super::value::{NbtValue, END_ID};

verus! {

/// Where `x + y` stands at `pos`, `x` stands at `pos` and `y` right after it.
pub proof fn lemma_split(data: Seq<u8>, pos: int, x: Seq<u8>, y: Seq<u8>)
    requires
        0 <= pos,
        pos + x.len() + y.len() <= data.len(),
        data.subrange(pos, pos + x.len() + y.len()) == x + y,
    ensures
        data.subrange(pos, pos + x.len()) == x,
        data.subrange(pos + x.len(), pos + x.len() + y.len()) == y,
{
    let whole = data.subrange(pos, pos + x.len() + y.len());
    assert forall|i: int| 0 <= i < x.len() implies data.subrange(pos, pos + x.len())[i] == x[i] by {
        assert(whole[i] == (x + y)[i]);
    }
    assert forall|i: int| 0 <= i < y.len() implies data.subrange(
        pos + x.len(),
        pos + x.len() + y.len(),
    )[i] == y[i] by {
        assert(whole[x.len() + i] == (x + y)[x.len() + i]);
    }
    assert(data.subrange(pos, pos + x.len()) =~= x);
    assert(data.subrange(pos + x.len(), pos + x.len() + y.len()) =~= y);
}

/// A written string reads back.
pub proof fn lemma_parse_string(s: Seq<char>, data: Seq<u8>, pos: int)
    requires
        string_roundtrips(s),
        ser_string(s) is Ok,
        0 <= pos,
        pos + ser_string(s)->Ok_0.len() <= data.len(),
        data.subrange(pos, pos + ser_string(s)->Ok_0.len()) == ser_string(s)->Ok_0,
    ensures
        parse_string(data, pos) == Ok::<(Seq<char>, int), super::error::Error>(
            (s, pos + ser_string(s)->Ok_0.len()),
        ),
{
    let b = java_cesu8_encoding(s);
    let h = u16_bytes(b.len() as u16);
    lemma_split(data, pos, h, b);
    lemma_u16_roundtrip(b.len() as u16, data, pos);
}

/// The `n` integers written one after the other read back.
proof fn lemma_ints_roundtrip(a: Seq<i32>, data: Seq<u8>, pos: int)
    requires
        0 <= pos,
        pos + ints_bytes(a).len() <= data.len(),
        data.subrange(pos, pos + ints_bytes(a).len()) == ints_bytes(a),
    ensures
        ints_bytes(a).len() == 4 * a.len(),
        ints_at(data, pos, a.len()) == a,
    decreases a.len(),
{
    if a.len() > 0 {
        let init = a.drop_last();
        let n = a.len() - 1;
        lemma_split(data, pos, ints_bytes(init), i32_bytes(a[n]));
        lemma_ints_roundtrip(init, data, pos);
        lemma_i32_roundtrip(a[n], data, pos + 4 * n);
        assert forall|i: int| 0 <= i < a.len() implies ints_at(data, pos, a.len())[i] == a[i] by {
            if i < n {
                assert(ints_at(data, pos, init.len())[i] == init[i]);
            }
        }
        assert(ints_at(data, pos, a.len()) =~= a);
    }
}

proof fn lemma_longs_roundtrip(a: Seq<i64>, data: Seq<u8>, pos: int)
    requires
        0 <= pos,
        pos + longs_bytes(a).len() <= data.len(),
        data.subrange(pos, pos + longs_bytes(a).len()) == longs_bytes(a),
    ensures
        longs_bytes(a).len() == 8 * a.len(),
        longs_at(data, pos, a.len()) == a,
    decreases a.len(),
{
    if a.len() > 0 {
        let init = a.drop_last();
        let n = a.len() - 1;
        lemma_split(data, pos, longs_bytes(init), super::bytes::i64_bytes(a[n]));
        lemma_longs_roundtrip(init, data, pos);
        lemma_i64_roundtrip(a[n], data, pos + 8 * n);
        assert forall|i: int| 0 <= i < a.len() implies longs_at(data, pos, a.len())[i] == a[i] by {
            if i < n {
                assert(longs_at(data, pos, init.len())[i] == init[i]);
            }
        }
        assert(longs_at(data, pos, a.len()) =~= a);
    }
}

/// The payload of a well-formed value, written at `pos`, reads back as the
/// value, and reading stops right after it.
pub proof fn lemma_parse_payload(v: NbtValue, data: Seq<u8>, pos: int)
    requires
        well_formed(v),
        strings_roundtrip(v),
        ser_payload(v) is Ok,
        0 <= pos,
        pos + ser_payload(v)->Ok_0.len() <= data.len(),
        data.subrange(pos, pos + ser_payload(v)->Ok_0.len()) == ser_payload(v)->Ok_0,
    ensures
        parse_payload(data, pos, value_type_id(v)) == Ok::<(NbtValue, int), super::error::Error>(
            (v, pos + ser_payload(v)->Ok_0.len()),
        ),
    decreases v,
{
    let bytes = ser_payload(v)->Ok_0;
    match v {
        NbtValue::End => {},
        NbtValue::Byte(x) => {
            lemma_i8_roundtrip(x, data, pos);
        },
        NbtValue::Short(x) => {
            lemma_i16_roundtrip(x, data, pos);
        },
        NbtValue::Int(x) => {
            lemma_i32_roundtrip(x, data, pos);
        },
        NbtValue::Long(x) => {
            lemma_i64_roundtrip(x, data, pos);
        },
        NbtValue::Float(x) => {
            lemma_u32_roundtrip(x, data, pos);
        },
        NbtValue::Double(x) => {
            lemma_u64_roundtrip(x, data, pos);
        },
        NbtValue::ByteArray(a) => {
            lemma_split(data, pos, i32_bytes(a.len() as i32), a);
            lemma_i32_roundtrip(a.len() as i32, data, pos);
        },
        NbtValue::String(s) => {
            lemma_parse_string(s, data, pos);
        },
        NbtValue::IntArray(a) => {
            lemma_split(data, pos, i32_bytes(a.len() as i32), ints_bytes(a));
            lemma_i32_roundtrip(a.len() as i32, data, pos);
            lemma_ints_roundtrip(a, data, pos + 4);
        },
        NbtValue::LongArray(a) => {
            lemma_split(data, pos, i32_bytes(a.len() as i32), longs_bytes(a));
            lemma_i32_roundtrip(a.len() as i32, data, pos);
            lemma_longs_roundtrip(a, data, pos + 4);
        },
        NbtValue::List(items) => {
            let id = list_elem_id(items);
            let head = seq![id] + i32_bytes(items.len() as i32);
            let body = ser_items(items)->Ok_0;
            lemma_split(data, pos, head, body);
            lemma_split(data, pos, seq![id], i32_bytes(items.len() as i32));
            assert(data[pos] == data.subrange(pos, pos + 1)[0]);
            lemma_i32_roundtrip(items.len() as i32, data, pos + 1);
            lemma_items_well_formed(items);
            lemma_parse_items(items, id, data, pos + 5);
        },
        NbtValue::Compound(entries) => {
            let body = ser_entries(entries)->Ok_0;
            assert(bytes == body + seq![END_ID]);
            lemma_entries_well_formed(entries);
            lemma_parse_entries(entries, data, pos);
            lemma_keep_first_distinct(entries);
        },
    }
}

/// Items of one type, written one after the other, read back.
pub proof fn lemma_parse_items(items: Seq<NbtValue>, id: u8, data: Seq<u8>, pos: int)
    requires
        forall|i: int|
            0 <= i < items.len() ==> #[trigger] well_formed(items[i]) && strings_roundtrip(
                items[i],
            ) && value_type_id(items[i]) == id,
        ser_items(items) is Ok,
        0 <= pos,
        pos + ser_items(items)->Ok_0.len() <= data.len(),
        data.subrange(pos, pos + ser_items(items)->Ok_0.len()) == ser_items(items)->Ok_0,
    ensures
        parse_list_items(data, pos, id, items.len()) == Ok::<
            (Seq<NbtValue>, int),
            super::error::Error,
        >((items, pos + ser_items(items)->Ok_0.len())),
    decreases items,
{
    if items.len() > 0 {
        let first = items[0];
        let rest = items.drop_first();
        assert(items =~= seq![first] + rest);
        lemma_ser_items_cons(first, rest);
        let a = ser_payload(first)->Ok_0;
        let b = ser_items(rest)->Ok_0;
        lemma_split(data, pos, a, b);
        assert(well_formed(items[0]));
        lemma_parse_payload(first, data, pos);
        assert forall|i: int| 0 <= i < rest.len() implies #[trigger] well_formed(rest[i])
            && strings_roundtrip(rest[i]) && value_type_id(rest[i]) == id by {
            assert(rest[i] == items[i + 1]);
            assert(well_formed(items[i + 1]));
        }
        lemma_parse_items(rest, id, data, pos + a.len());
        assert(seq![first] + rest =~= items);
        assert((items.len() - 1) as nat == rest.len());
        assert(parse_payload(data, pos, id) == Ok::<(NbtValue, int), super::error::Error>(
            (first, pos + a.len()),
        ));
    } else {
        assert(items =~= Seq::<NbtValue>::empty());
    }
}

/// Entries written one after the other, followed by an end tag, read back.
pub proof fn lemma_parse_entries(entries: Seq<(Seq<char>, NbtValue)>, data: Seq<u8>, pos: int)
    requires
        forall|i: int|
            0 <= i < entries.len() ==> #[trigger] well_formed(entries[i].1) && strings_roundtrip(
                entries[i].1,
            ) && string_roundtrips(entries[i].0) && !(entries[i].1 is End),
        ser_entries(entries) is Ok,
        0 <= pos,
        pos + ser_entries(entries)->Ok_0.len() + 1 <= data.len(),
        data.subrange(pos, pos + ser_entries(entries)->Ok_0.len() + 1) == ser_entries(
            entries,
        )->Ok_0 + seq![END_ID],
    ensures
        parse_entries(data, pos) == Ok::<
            (Seq<(Seq<char>, NbtValue)>, int),
            super::error::Error,
        >((entries, pos + ser_entries(entries)->Ok_0.len() + 1)),
    decreases entries,
{
    let body = ser_entries(entries)->Ok_0;
    if entries.len() == 0 {
        assert(data[pos] == data.subrange(pos, pos + 1)[0]);
        assert(entries =~= Seq::<(Seq<char>, NbtValue)>::empty());
        assert(body =~= Seq::<u8>::empty());
    } else {
        let first = entries[0];
        let rest = entries.drop_first();
        assert(entries =~= seq![first] + rest);
        lemma_ser_entries_cons(first, rest);
        let n = ser_string(first.0)->Ok_0;
        let p = ser_payload(first.1)->Ok_0;
        let tail = ser_entries(rest)->Ok_0 + seq![END_ID];
        assert(body + seq![END_ID] =~= seq![value_type_id(first.1)] + (n + (p + tail)));
        lemma_split(data, pos, seq![value_type_id(first.1)], n + (p + tail));
        lemma_split(data, pos + 1, n, p + tail);
        lemma_split(data, pos + 1 + n.len(), p, tail);
        assert(data[pos] == data.subrange(pos, pos + 1)[0]);
        assert(well_formed(entries[0].1));
        lemma_parse_string(first.0, data, pos + 1);
        lemma_parse_payload(first.1, data, pos + 1 + n.len());
        assert forall|i: int| 0 <= i < rest.len() implies #[trigger] well_formed(rest[i].1)
            && strings_roundtrip(rest[i].1) && string_roundtrips(rest[i].0) && !(
            rest[i].1 is End) by {
            assert(rest[i] == entries[i + 1]);
            assert(well_formed(entries[i + 1].1));
        }
        lemma_parse_entries(rest, data, pos + 1 + n.len() + p.len());
        assert(seq![(first.0, first.1)] + rest =~= entries);
    }
}

} // verus!
