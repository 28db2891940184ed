//! Reading and skipping tags.
use vstd::prelude::*;

use super::error::{eof_error, Error, IoErrorKind};
use super::format::{
    has_key, ints_at, keep_first, longs_at, parse_entries, parse_list_items, parse_payload,
    parse_string, skip_entries, skip_list_items, skip_payload,
};
use super::java_string::decode_java_cesu8;
use super::parse_lemmas::{lemma_parse_payload_bounds, lemma_skip_payload_bounds};
use super::reader::ReadAdaptor;
use super::value::{
    list_values, NbtCompound, NbtTag, NbtValue, BYTE_ARRAY_ID, BYTE_ID, COMPOUND_ID, DOUBLE_ID,
    END_ID, FLOAT_ID, INT_ARRAY_ID, INT_ID, LIST_ID, LONG_ARRAY_ID, LONG_ID, SHORT_ID, STRING_ID,
};

verus! {

/// Reads a length-prefixed modified-UTF-8 string.
pub fn get_nbt_string(bytes: &mut ReadAdaptor) -> (r: Result<String, Error>)
    ensures
        final(bytes).data() == old(bytes).data(),
        match parse_string(old(bytes).data(), old(bytes).pos()) {
            Ok((s, p)) => r is Ok && r->Ok_0@ == s && final(bytes).pos() == p,
            Err(e) => r == Err::<String, Error>(e),
        },
{
    proof {
        use_type_invariant(&*bytes);
    }
    let len = bytes.get_u16_be()?;
    let string_bytes = bytes.read_boxed_slice(len as usize)?;
    match decode_java_cesu8(string_bytes.as_slice()) {
        Some(s) => Ok(s),
        None => Err(Error::Cesu8DecodingError),
    }
}

/// Keeping the first entry per name: one more entry is dropped exactly when its
/// name is already kept.
proof fn lemma_keep_first_push(raw: Seq<(Seq<char>, NbtValue)>, e: (Seq<char>, NbtValue))
    ensures
        keep_first(raw.push(e)) == if has_key(keep_first(raw), e.0) {
            keep_first(raw)
        } else {
            keep_first(raw).push(e)
        },
{
    assert(raw.push(e).drop_last() =~= raw);
    assert(raw.push(e).last() == e);
}

impl NbtTag {
    /// Reads a type id and then a payload of that type.
    pub fn deserialize(reader: &mut ReadAdaptor) -> (r: Result<NbtTag, Error>)
        ensures
            final(reader).data() == old(reader).data(),
            old(reader).pos() + 1 > old(reader).data().len() ==> r == Err::<NbtTag, Error>(
                eof_error(),
            ),
            old(reader).pos() + 1 <= old(reader).data().len() ==> match parse_payload(
                old(reader).data(),
                old(reader).pos() + 1,
                old(reader).data()[old(reader).pos()],
            ) {
                Ok((v, p)) => r is Ok && r->Ok_0@ == v && final(reader).pos() == p,
                Err(e) => r == Err::<NbtTag, Error>(e),
            },
    {
        let tag_id = reader.get_u8_be()?;
        Self::deserialize_data(reader, tag_id)
    }

    /// Reads the payload of a tag of type `tag_id`.
    pub fn deserialize_data(reader: &mut ReadAdaptor, tag_id: u8) -> (r: Result<NbtTag, Error>)
        ensures
            final(reader).data() == old(reader).data(),
            match parse_payload(old(reader).data(), old(reader).pos(), tag_id) {
                Ok((v, p)) => r is Ok && r->Ok_0@ == v && final(reader).pos() == p,
                Err(e) => r == Err::<NbtTag, Error>(e),
            },
        decreases old(reader).data().len() - old(reader).pos(), 1int, 0int,
    {
        proof {
            use_type_invariant(&*reader);
        }
        let ghost d = reader.data();
        let ghost pos = reader.pos();
        if tag_id == END_ID {
            Ok(NbtTag::End)
        } else if tag_id == BYTE_ID {
            Ok(NbtTag::Byte(reader.get_i8_be()?))
        } else if tag_id == SHORT_ID {
            Ok(NbtTag::Short(reader.get_i16_be()?))
        } else if tag_id == INT_ID {
            Ok(NbtTag::Int(reader.get_i32_be()?))
        } else if tag_id == LONG_ID {
            Ok(NbtTag::Long(reader.get_i64_be()?))
        } else if tag_id == FLOAT_ID {
            Ok(NbtTag::Float(reader.get_f32_be()?))
        } else if tag_id == DOUBLE_ID {
            Ok(NbtTag::Double(reader.get_f64_be()?))
        } else if tag_id == BYTE_ARRAY_ID {
            let len = reader.get_i32_be()?;
            if len < 0 {
                return Err(Error::NegativeLength(len));
            }
            let byte_array = reader.read_boxed_slice(len as usize)?;
            Ok(NbtTag::ByteArray(byte_array))
        } else if tag_id == STRING_ID {
            Ok(NbtTag::String(get_nbt_string(reader)?))
        } else if tag_id == LIST_ID {
            let tag_type_id = reader.get_u8_be()?;
            let len = reader.get_i32_be()?;
            if len < 0 {
                return Err(Error::NegativeLength(len));
            }
            let ghost start = reader.pos();
            let ghost n = len as nat;
            let mut list: Vec<NbtTag> = Vec::new();
            let mut k: i32 = 0;
            assert(list_values(list@) =~= Seq::<NbtValue>::empty());
            while k < len
                invariant
                    reader.data() == d,
                    d == old(reader).data(),
                    pos == old(reader).pos(),
                    tag_id == LIST_ID,
                    0 <= pos,
                    pos + 5 <= d.len(),
                    tag_type_id == d[pos],
                    len == super::bytes::i32_at(d, pos + 1),
                    n == len as nat,
                    0 <= k <= len,
                    start == pos + 5,
                    start <= reader.pos() <= d.len(),
                    match parse_list_items(d, reader.pos(), tag_type_id, (len - k) as nat) {
                        Ok((rest, q)) => parse_list_items(d, start, tag_type_id, n) == Ok::<
                            (Seq<NbtValue>, int),
                            Error,
                        >((list_values(list@) + rest, q)),
                        Err(e) => parse_list_items(d, start, tag_type_id, n) == Err::<
                            (Seq<NbtValue>, int),
                            Error,
                        >(e),
                    },
                decreases len - k,
            {
                proof {
                    use_type_invariant(&*reader);
                    lemma_parse_payload_bounds(d, reader.pos(), tag_type_id);
                }
                let ghost cur = reader.pos();
                let tag = Self::deserialize_data(reader, tag_type_id)?;
                proof {
                    assert(list_values(list@.push(tag)) == list_values(list@).push(tag@)) by {
                        assert(list@.push(tag).drop_last() =~= list@);
                    }
                }
                let ghost before = list_values(list@);
                list.push(tag);
                k = k + 1;
                proof {
                    let rest = parse_list_items(d, reader.pos(), tag_type_id, (len - k) as nat);
                    if let Ok((r2, q)) = rest {
                        assert(before + (seq![tag@] + r2) =~= list_values(list@) + r2);
                    }
                }
            }
            Ok(NbtTag::List(list))
        } else if tag_id == COMPOUND_ID {
            Ok(NbtTag::Compound(NbtCompound::deserialize_content(reader)?))
        } else if tag_id == INT_ARRAY_ID {
            let len = reader.get_i32_be()?;
            if len < 0 {
                return Err(Error::NegativeLength(len));
            }
            let ghost start = reader.pos();
            let mut int_array: Vec<i32> = Vec::new();
            let mut k: i32 = 0;
            while k < len
                invariant
                    reader.data() == d,
                    d == old(reader).data(),
                    pos == old(reader).pos(),
                    tag_id == INT_ARRAY_ID,
                    0 <= pos,
                    0 <= k <= len,
                    start == pos + 4,
                    len == super::bytes::i32_at(d, pos),
                    reader.pos() == start + 4 * k,
                    reader.pos() <= d.len(),
                    int_array@ == ints_at(d, start, k as nat),
                decreases len - k,
            {
                let value = reader.get_i32_be()?;
                int_array.push(value);
                k = k + 1;
                assert(int_array@ =~= ints_at(d, start, k as nat));
            }
            Ok(NbtTag::IntArray(int_array))
        } else if tag_id == LONG_ARRAY_ID {
            let len = reader.get_i32_be()?;
            if len < 0 {
                return Err(Error::NegativeLength(len));
            }
            let ghost start = reader.pos();
            let mut long_array: Vec<i64> = Vec::new();
            let mut k: i32 = 0;
            while k < len
                invariant
                    reader.data() == d,
                    d == old(reader).data(),
                    pos == old(reader).pos(),
                    tag_id == LONG_ARRAY_ID,
                    0 <= pos,
                    0 <= k <= len,
                    start == pos + 4,
                    len == super::bytes::i32_at(d, pos),
                    reader.pos() == start + 8 * k,
                    reader.pos() <= d.len(),
                    long_array@ == longs_at(d, start, k as nat),
                decreases len - k,
            {
                let value = reader.get_i64_be()?;
                long_array.push(value);
                k = k + 1;
                assert(long_array@ =~= longs_at(d, start, k as nat));
            }
            Ok(NbtTag::LongArray(long_array))
        } else {
            Err(Error::UnknownTagId(tag_id))
        }
    }
}

impl NbtCompound {
    /// Reads named entries up to an end tag (or the end of the data); an entry
    /// whose name was already read is dropped.
    pub fn deserialize_content(reader: &mut ReadAdaptor) -> (r: Result<NbtCompound, Error>)
        ensures
            final(reader).data() == old(reader).data(),
            match parse_entries(old(reader).data(), old(reader).pos()) {
                Ok((entries, p)) => r is Ok && r->Ok_0@ == keep_first(entries) && final(reader).pos()
                    == p,
                Err(e) => r == Err::<NbtCompound, Error>(e),
            },
        decreases old(reader).data().len() - old(reader).pos(), 0int, 0int,
    {
        proof {
            use_type_invariant(&*reader);
        }
        let ghost d = reader.data();
        let ghost s0 = reader.pos();
        let ghost mut raw: Seq<(Seq<char>, NbtValue)> = Seq::empty();
        let mut compound = NbtCompound::new();
        loop
            invariant_except_break
                reader.data() == d,
                d == old(reader).data(),
                s0 == old(reader).pos(),
                s0 <= reader.pos() <= d.len(),
                compound@ == keep_first(raw),
                match parse_entries(d, reader.pos()) {
                    Ok((rest, q)) => parse_entries(d, s0) == Ok::<
                        (Seq<(Seq<char>, NbtValue)>, int),
                        Error,
                    >((raw + rest, q)),
                    Err(e) => parse_entries(d, s0) == Err::<(Seq<(Seq<char>, NbtValue)>, int), Error>(
                        e,
                    ),
                },
            ensures
                reader.data() == d,
                compound@ == keep_first(raw),
                parse_entries(d, s0) == Ok::<(Seq<(Seq<char>, NbtValue)>, int), Error>(
                    (raw, reader.pos()),
                ),
            decreases d.len() - reader.pos(),
        {
            proof {
                use_type_invariant(&*reader);
            }
            let ghost cur = reader.pos();
            let tag_id = match reader.get_u8_be() {
                Ok(id) => id,
                Err(Error::Incomplete(IoErrorKind::UnexpectedEof)) => {
                    assert(raw + Seq::<(Seq<char>, NbtValue)>::empty() =~= raw);
                    break ;
                },
                Err(err) => {
                    return Err(err);
                },
            };
            if tag_id == END_ID {
                assert(raw + Seq::<(Seq<char>, NbtValue)>::empty() =~= raw);
                break ;
            }
            let name = get_nbt_string(reader)?;
            proof {
                use_type_invariant(&*reader);
                lemma_parse_payload_bounds(d, reader.pos(), tag_id);
            }
            let tag = NbtTag::deserialize_data(reader, tag_id)?;
            proof {
                lemma_keep_first_push(raw, (name@, tag@));
                let rest = parse_entries(d, reader.pos());
                if let Ok((r2, q)) = rest {
                    assert(raw + (seq![(name@, tag@)] + r2) =~= raw.push((name@, tag@)) + r2);
                }
                raw = raw.push((name@, tag@));
            }
            compound.put(name.as_str(), tag);
        }
        Ok(compound)
    }
}

impl NbtTag {
    /// Moves past the payload of a tag of type `tag_id` without building it.
    pub fn skip_data(reader: &mut ReadAdaptor, tag_id: u8) -> (r: Result<(), Error>)
        ensures
            final(reader).data() == old(reader).data(),
            match skip_payload(old(reader).data(), old(reader).pos(), tag_id) {
                Ok(p) => r is Ok && final(reader).pos() == p,
                Err(e) => r == Err::<(), Error>(e),
            },
        decreases old(reader).data().len() - old(reader).pos(), 1int, 0int,
    {
        proof {
            use_type_invariant(&*reader);
        }
        let ghost d = reader.data();
        let ghost pos = reader.pos();
        if tag_id == END_ID {
            Ok(())
        } else if tag_id == BYTE_ID {
            reader.skip_bytes(1)
        } else if tag_id == SHORT_ID {
            reader.skip_bytes(2)
        } else if tag_id == INT_ID || tag_id == FLOAT_ID {
            reader.skip_bytes(4)
        } else if tag_id == LONG_ID || tag_id == DOUBLE_ID {
            reader.skip_bytes(8)
        } else if tag_id == BYTE_ARRAY_ID {
            let len = reader.get_i32_be()?;
            if len < 0 {
                return Err(Error::NegativeLength(len));
            }
            reader.skip_bytes(len as u64)
        } else if tag_id == STRING_ID {
            let len = reader.get_u16_be()?;
            reader.skip_bytes(len as u64)
        } else if tag_id == LIST_ID {
            let tag_type_id = reader.get_u8_be()?;
            let len = reader.get_i32_be()?;
            if len < 0 {
                return Err(Error::NegativeLength(len));
            }
            let ghost start = reader.pos();
            let ghost n = len as nat;
            let mut k: i32 = 0;
            while k < len
                invariant
                    reader.data() == d,
                    d == old(reader).data(),
                    pos == old(reader).pos(),
                    tag_id == LIST_ID,
                    0 <= pos,
                    pos + 5 <= d.len(),
                    tag_type_id == d[pos],
                    len == super::bytes::i32_at(d, pos + 1),
                    n == len as nat,
                    0 <= k <= len,
                    start == pos + 5,
                    start <= reader.pos() <= d.len(),
                    match skip_list_items(d, reader.pos(), tag_type_id, (len - k) as nat) {
                        Ok(q) => skip_list_items(d, start, tag_type_id, n) == Ok::<int, Error>(q),
                        Err(e) => skip_list_items(d, start, tag_type_id, n) == Err::<int, Error>(e),
                    },
                decreases len - k,
            {
                proof {
                    use_type_invariant(&*reader);
                    lemma_skip_payload_bounds(d, reader.pos(), tag_type_id);
                }
                Self::skip_data(reader, tag_type_id)?;
                k = k + 1;
            }
            Ok(())
        } else if tag_id == COMPOUND_ID {
            NbtCompound::skip_content(reader)
        } else if tag_id == INT_ARRAY_ID {
            let len = reader.get_i32_be()?;
            if len < 0 {
                return Err(Error::NegativeLength(len));
            }
            reader.skip_bytes(len as u64 * 4)
        } else if tag_id == LONG_ARRAY_ID {
            let len = reader.get_i32_be()?;
            if len < 0 {
                return Err(Error::NegativeLength(len));
            }
            reader.skip_bytes(len as u64 * 8)
        } else {
            Err(Error::UnknownTagId(tag_id))
        }
    }
}

impl NbtCompound {
    /// Moves past the entries of a compound up to its end tag (or the end of the data).
    pub fn skip_content(reader: &mut ReadAdaptor) -> (r: Result<(), Error>)
        ensures
            final(reader).data() == old(reader).data(),
            match skip_entries(old(reader).data(), old(reader).pos()) {
                Ok(p) => r is Ok && final(reader).pos() == p,
                Err(e) => r == Err::<(), Error>(e),
            },
        decreases old(reader).data().len() - old(reader).pos(), 0int, 0int,
    {
        proof {
            use_type_invariant(&*reader);
        }
        let ghost d = reader.data();
        let ghost s0 = reader.pos();
        loop
            invariant_except_break
                reader.data() == d,
                d == old(reader).data(),
                s0 == old(reader).pos(),
                s0 <= reader.pos() <= d.len(),
                match skip_entries(d, reader.pos()) {
                    Ok(q) => skip_entries(d, s0) == Ok::<int, Error>(q),
                    Err(e) => skip_entries(d, s0) == Err::<int, Error>(e),
                },
            ensures
                reader.data() == d,
                skip_entries(d, s0) == Ok::<int, Error>(reader.pos()),
            decreases d.len() - reader.pos(),
        {
            proof {
                use_type_invariant(&*reader);
            }
            let tag_id = match reader.get_u8_be() {
                Ok(id) => id,
                Err(Error::Incomplete(IoErrorKind::UnexpectedEof)) => {
                    break ;
                },
                Err(err) => {
                    return Err(err);
                },
            };
            if tag_id == END_ID {
                break ;
            }
            let len = reader.get_u16_be()?;
            reader.skip_bytes(len as u64)?;
            proof {
                use_type_invariant(&*reader);
                lemma_skip_payload_bounds(d, reader.pos(), tag_id);
            }
            NbtTag::skip_data(reader, tag_id)?;
        }
        Ok(())
    }
}

} // verus!
