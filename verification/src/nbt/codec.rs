//! Reading, skipping and writing tags in the NBT byte format.
use vstd::prelude::*;

use super::error::Error;
use super::format::{
    entries_strings_roundtrip, items_strings_roundtrip, list_elem_id, ser_entries, ser_items,
    ser_payload, ser_string, string_roundtrips, strings_roundtrip, value_type_id, ints_bytes,
    longs_bytes,
};
use super::java_string::encode_java_cesu8;
use super::lemmas::{
    lemma_entry_values, lemma_entry_values_prefix, lemma_list_values, lemma_list_values_prefix,
    lemma_ser_entries_err, lemma_ser_entries_push, lemma_ser_items_err, lemma_ser_items_push,
    lemma_entries_strings_push, lemma_items_strings_push,
};
use super::value::{
    entry_values, list_values, NbtCompound, NbtTag, NbtValue, END_ID,
};
use super::writer::WriteAdaptor;

verus! {

/// Whether a tag's own length does not fit the format: an array or list of
/// more than `i32::MAX` elements, or a string of more than 65535 encoded bytes.
/// Such a tag is refused before anything of it is written.
pub open spec fn own_length_refused(v: NbtValue) -> bool {
    match v {
        NbtValue::ByteArray(a) => a.len() > i32::MAX,
        NbtValue::String(s) => ser_string(s) is Err,
        NbtValue::List(items) => items.len() > i32::MAX,
        NbtValue::IntArray(a) => a.len() > i32::MAX,
        NbtValue::LongArray(a) => a.len() > i32::MAX,
        _ => false,
    }
}

/// Writes a length-prefixed modified-UTF-8 string.
pub fn serialize_string(s: &str, w: &mut WriteAdaptor) -> (r: Result<(), Error>)
    ensures
        match ser_string(s@) {
            Ok(b) => r is Ok && final(w).bytes() == old(w).bytes() + b,
            Err(e) => r == Err::<(), Error>(e),
        },
        r is Ok ==> string_roundtrips(s@),
        r is Err ==> final(w).bytes() == old(w).bytes(),
{
    let java_string = encode_java_cesu8(s);
    let len = java_string.len();
    if len > 65535 {
        return Err(Error::LargeLength(len));
    }
    w.write_u16_be(len as u16);
    w.write_slice(java_string.as_slice());
    Ok(())
}

impl NbtTag {
    /// Writes the payload of the tag (without its type id).
    pub fn serialize_data(&self, w: &mut WriteAdaptor) -> (r: Result<(), Error>)
        ensures
            match ser_payload(self@) {
                Ok(b) => r is Ok && final(w).bytes() == old(w).bytes() + b,
                Err(e) => r == Err::<(), Error>(e),
            },
            r is Ok ==> strings_roundtrip(self@),
            own_length_refused(self@) ==> final(w).bytes() == old(w).bytes(),
        decreases self,
    {
        match self {
            NbtTag::End => {},
            NbtTag::Byte(x) => w.write_i8_be(*x),
            NbtTag::Short(x) => w.write_i16_be(*x),
            NbtTag::Int(x) => w.write_i32_be(*x),
            NbtTag::Long(x) => w.write_i64_be(*x),
            NbtTag::Float(x) => w.write_f32_be(*x),
            NbtTag::Double(x) => w.write_f64_be(*x),
            NbtTag::ByteArray(a) => {
                let len = a.len();
                if len > 2147483647 {
                    return Err(Error::LargeLength(len));
                }
                w.write_i32_be(len as i32);
                w.write_slice(a.as_slice());
            },
            NbtTag::String(s) => {
                serialize_string(s.as_str(), w)?;
            },
            NbtTag::List(list) => {
                let len = list.len();
                proof {
                    lemma_list_values(list@);
                }
                if len > 2147483647 {
                    return Err(Error::LargeLength(len));
                }
                let first = if len == 0 {
                    END_ID
                } else {
                    list[0].get_type_id()
                };
                assert(first == list_elem_id(list_values(list@)));
                let ghost header = old(w).bytes() + seq![first] + super::bytes::i32_bytes(
                    len as i32,
                );
                w.write_u8_be(first);
                w.write_i32_be(len as i32);
                assert(w.bytes() =~= header);
                let mut i: usize = 0;
                assert(list@.subrange(0, 0) =~= Seq::<NbtTag>::empty());
                while i < len
                    invariant
                        *self == NbtTag::List(*list),
                        len == list@.len(),
                        len <= 2147483647,
                        i <= len,
                        ser_items(list_values(list@.subrange(0, i as int))) is Ok,
                        w.bytes() == header + ser_items(
                            list_values(list@.subrange(0, i as int)),
                        )->Ok_0,
                        items_strings_roundtrip(list_values(list@.subrange(0, i as int))),
                    decreases len - i,
                {
                    proof {
                        lemma_list_values_prefix(list@, i as int);
                        lemma_ser_items_push(
                            list_values(list@.subrange(0, i as int)),
                            super::value::tag_value(list@[i as int]),
                        );
                        lemma_items_strings_push(
                            list_values(list@.subrange(0, i as int)),
                            super::value::tag_value(list@[i as int]),
                        );
                    }
                    proof {
                        assert(decreases_to!(*self => *list));
                        assert(decreases_to!(*list => list@));
                        assert(decreases_to!(list@ => list@[i as int]));
                    }
                    let res = list[i].serialize_data(w);
                    if res.is_err() {
                        proof {
                            lemma_list_values(list@);
                            lemma_list_values(list@.subrange(0, i + 1));
                            assert(list_values(list@).subrange(0, i + 1) =~= list_values(
                                list@.subrange(0, i + 1),
                            ));
                            lemma_ser_items_err(list_values(list@), i + 1);
                        }
                        return res;
                    }
                    i = i + 1;
                    assert(w.bytes() =~= header + ser_items(
                        list_values(list@.subrange(0, i as int)),
                    )->Ok_0);
                }
                assert(list@.subrange(0, len as int) =~= list@);
            },
            NbtTag::Compound(compound) => {
                compound.serialize_content(w)?;
            },
            NbtTag::IntArray(a) => {
                let len = a.len();
                if len > 2147483647 {
                    return Err(Error::LargeLength(len));
                }
                w.write_i32_be(len as i32);
                let ghost header = w.bytes();
                let mut i: usize = 0;
                while i < len
                    invariant
                        len == a@.len(),
                        i <= len,
                        w.bytes() == header + ints_bytes(a@.subrange(0, i as int)),
                    decreases len - i,
                {
                    w.write_i32_be(a[i]);
                    assert(a@.subrange(0, i + 1).drop_last() =~= a@.subrange(0, i as int));
                    i = i + 1;
                    assert(w.bytes() =~= header + ints_bytes(a@.subrange(0, i as int)));
                }
                assert(a@.subrange(0, len as int) =~= a@);
            },
            NbtTag::LongArray(a) => {
                let len = a.len();
                if len > 2147483647 {
                    return Err(Error::LargeLength(len));
                }
                w.write_i32_be(len as i32);
                let ghost header = w.bytes();
                let mut i: usize = 0;
                while i < len
                    invariant
                        len == a@.len(),
                        i <= len,
                        w.bytes() == header + longs_bytes(a@.subrange(0, i as int)),
                    decreases len - i,
                {
                    w.write_i64_be(a[i]);
                    assert(a@.subrange(0, i + 1).drop_last() =~= a@.subrange(0, i as int));
                    i = i + 1;
                    assert(w.bytes() =~= header + longs_bytes(a@.subrange(0, i as int)));
                }
                assert(a@.subrange(0, len as int) =~= a@);
            },
        }
        Ok(())
    }

    /// Writes the type id followed by the payload.
    pub fn serialize(&self, w: &mut WriteAdaptor) -> (r: Result<(), Error>)
        ensures
            match ser_payload(self@) {
                Ok(b) => r is Ok && final(w).bytes() == old(w).bytes() + seq![value_type_id(self@)]
                    + b,
                Err(e) => r == Err::<(), Error>(e),
            },
            r is Ok ==> strings_roundtrip(self@),
    {
        w.write_u8_be(self.get_type_id());
        self.serialize_data(w)?;
        assert(w.bytes() =~= old(w).bytes() + seq![value_type_id(self@)] + ser_payload(
            self@,
        )->Ok_0);
        Ok(())
    }
}

impl NbtCompound {
    /// Writes every entry (type id, name, payload) and the closing end tag.
    pub fn serialize_content(&self, w: &mut WriteAdaptor) -> (r: Result<(), Error>)
        ensures
            match ser_payload(super::value::NbtValue::Compound(self@)) {
                Ok(b) => r is Ok && final(w).bytes() == old(w).bytes() + b,
                Err(e) => r == Err::<(), Error>(e),
            },
            r is Ok ==> entries_strings_roundtrip(self@),
        decreases self,
    {
        let len = self.child_tags.len();
        proof {
            lemma_entry_values(self.child_tags@);
        }
        let ghost start = w.bytes();
        let mut i: usize = 0;
        assert(self.child_tags@.subrange(0, 0) =~= Seq::<(String, NbtTag)>::empty());
        while i < len
            invariant
                len == self.child_tags@.len(),
                i <= len,
                ser_entries(entry_values(self.child_tags@.subrange(0, i as int))) is Ok,
                w.bytes() == start + ser_entries(
                    entry_values(self.child_tags@.subrange(0, i as int)),
                )->Ok_0,
                entries_strings_roundtrip(entry_values(self.child_tags@.subrange(0, i as int))),
            decreases len - i,
        {
            proof {
                lemma_entry_values_prefix(self.child_tags@, i as int);
                lemma_ser_entries_push(
                    entry_values(self.child_tags@.subrange(0, i as int)),
                    self.child_tags@[i as int].0@,
                    super::value::tag_value(self.child_tags@[i as int].1),
                );
                lemma_entries_strings_push(
                    entry_values(self.child_tags@.subrange(0, i as int)),
                    self.child_tags@[i as int].0@,
                    super::value::tag_value(self.child_tags@[i as int].1),
                );
            }
            let entry = &self.child_tags[i];
            proof {
                lemma_entry_values(self.child_tags@.subrange(0, i + 1));
                lemma_ser_entries_err_from(self.child_tags@, i as int);
                assert(decreases_to!(*self => self.child_tags));
                assert(decreases_to!(self.child_tags => self.child_tags@));
                assert(decreases_to!(self.child_tags@ => self.child_tags@[i as int]));
                assert(decreases_to!(self.child_tags@[i as int] => self.child_tags@[i as int].1));
            }
            w.write_u8_be(entry.1.get_type_id());
            let res = serialize_string(entry.0.as_str(), w);
            if res.is_err() {
                return res;
            }
            let res = entry.1.serialize_data(w);
            if res.is_err() {
                return res;
            }
            i = i + 1;
            assert(w.bytes() =~= start + ser_entries(
                entry_values(self.child_tags@.subrange(0, i as int)),
            )->Ok_0);
        }
        assert(self.child_tags@.subrange(0, len as int) =~= self.child_tags@);
        w.write_u8_be(END_ID);
        Ok(())
    }
}

/// If entry `i` fails to encode after a prefix that encodes, the whole entry list
/// fails with that error.
proof fn lemma_ser_entries_err_from(s: Seq<(String, NbtTag)>, i: int)
    requires
        0 <= i < s.len(),
        ser_entries(entry_values(s.subrange(0, i))) is Ok,
    ensures
        ser_string(s[i].0@) is Err ==> ser_entries(entry_values(s)) == Err::<Seq<u8>, Error>(
            ser_string(s[i].0@)->Err_0,
        ),
        ser_string(s[i].0@) is Ok && ser_payload(super::value::tag_value(s[i].1)) is Err
            ==> ser_entries(entry_values(s)) == Err::<Seq<u8>, Error>(
            ser_payload(super::value::tag_value(s[i].1))->Err_0,
        ),
{
    lemma_entry_values(s);
    lemma_entry_values(s.subrange(0, i + 1));
    lemma_entry_values_prefix(s, i);
    lemma_ser_entries_push(entry_values(s.subrange(0, i)), s[i].0@, super::value::tag_value(s[i].1));
    assert(entry_values(s).subrange(0, i + 1) =~= entry_values(s.subrange(0, i + 1)));
    if ser_entries(entry_values(s.subrange(0, i + 1))) is Err {
        lemma_ser_entries_err(entry_values(s), i + 1);
    }
}

} // verus!
