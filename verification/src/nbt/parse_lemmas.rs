//! Facts about the reading and skipping functions of the format.
use vstd::prelude::*;

use super::format::{
    parse_entries, parse_list_items, parse_payload, parse_string, skip_entries, skip_list_items,
    skip_payload,
};

verus! {

/// A successful read ends between its start and the end of the data.
pub proof fn lemma_parse_payload_bounds(data: Seq<u8>, pos: int, id: u8)
    ensures
        parse_payload(data, pos, id) is Ok ==> pos <= parse_payload(data, pos, id)->Ok_0.1
            <= data.len(),
    decreases data.len() - pos, 1int, 0int,
{
    if 0 <= pos <= data.len() {
        if id == super::value::LIST_ID && pos + 5 <= data.len() {
            let n = super::bytes::i32_at(data, pos + 1);
            if n >= 0 {
                lemma_parse_list_items_bounds(data, pos + 5, data[pos], n as nat);
            }
        } else if id == super::value::COMPOUND_ID {
            lemma_parse_entries_bounds(data, pos);
        }
    }
}

pub proof fn lemma_parse_list_items_bounds(data: Seq<u8>, pos: int, id: u8, n: nat)
    ensures
        parse_list_items(data, pos, id, n) is Ok ==> pos <= parse_list_items(data, pos, id, n)->Ok_0.1
            <= data.len(),
    decreases data.len() - pos, 2int, n,
{
    if 0 <= pos <= data.len() && n > 0 {
        lemma_parse_payload_bounds(data, pos, id);
        if let Ok((v, p)) = parse_payload(data, pos, id) {
            if pos <= p <= data.len() {
                lemma_parse_list_items_bounds(data, p, id, (n - 1) as nat);
            }
        }
    }
}

pub proof fn lemma_parse_entries_bounds(data: Seq<u8>, pos: int)
    ensures
        parse_entries(data, pos) is Ok ==> pos <= parse_entries(data, pos)->Ok_0.1 <= data.len(),
    decreases data.len() - pos, 0int, 0int,
{
    if 0 <= pos < data.len() && data[pos] != super::value::END_ID {
        if let Ok((name, p1)) = parse_string(data, pos + 1) {
            if pos < p1 <= data.len() {
                lemma_parse_payload_bounds(data, p1, data[pos]);
                if let Ok((v, p2)) = parse_payload(data, p1, data[pos]) {
                    if p1 <= p2 <= data.len() {
                        lemma_parse_entries_bounds(data, p2);
                    }
                }
            }
        }
    }
}

/// A successful skip ends between its start and the end of the data.
pub proof fn lemma_skip_payload_bounds(data: Seq<u8>, pos: int, id: u8)
    ensures
        skip_payload(data, pos, id) is Ok ==> pos <= skip_payload(data, pos, id)->Ok_0
            <= data.len(),
    decreases data.len() - pos, 1int, 0int,
{
    if 0 <= pos <= data.len() {
        if id == super::value::LIST_ID && pos + 5 <= data.len() {
            let n = super::bytes::i32_at(data, pos + 1);
            if n >= 0 {
                lemma_skip_list_items_bounds(data, pos + 5, data[pos], n as nat);
            }
        } else if id == super::value::COMPOUND_ID {
            lemma_skip_entries_bounds(data, pos);
        } else if (id == super::value::BYTE_ARRAY_ID || id == super::value::INT_ARRAY_ID || id
            == super::value::LONG_ARRAY_ID) && pos + 4 <= data.len() {
            let n = super::bytes::i32_at(data, pos);
            assert(n >= 0 ==> 4 * n >= 0 && 8 * n >= 0);
        }
    }
}

pub proof fn lemma_skip_list_items_bounds(data: Seq<u8>, pos: int, id: u8, n: nat)
    ensures
        skip_list_items(data, pos, id, n) is Ok ==> pos <= skip_list_items(data, pos, id, n)->Ok_0
            <= data.len(),
    decreases data.len() - pos, 2int, n,
{
    if 0 <= pos <= data.len() && n > 0 {
        lemma_skip_payload_bounds(data, pos, id);
        if let Ok(p) = skip_payload(data, pos, id) {
            if pos <= p <= data.len() {
                lemma_skip_list_items_bounds(data, p, id, (n - 1) as nat);
            }
        }
    }
}

pub proof fn lemma_skip_entries_bounds(data: Seq<u8>, pos: int)
    ensures
        skip_entries(data, pos) is Ok ==> pos <= skip_entries(data, pos)->Ok_0 <= data.len(),
    decreases data.len() - pos, 0int, 0int,
{
    if 0 <= pos < data.len() && data[pos] != super::value::END_ID && pos + 3 <= data.len() {
        let p1 = super::format::advance(data, pos + 3, super::bytes::u16_at(data, pos + 1) as int);
        lemma_skip_payload_bounds(data, p1, data[pos]);
        if let Ok(p2) = skip_payload(data, p1, data[pos]) {
            if p1 <= p2 <= data.len() {
                lemma_skip_entries_bounds(data, p2);
            }
        }
    }
}

} // verus!
