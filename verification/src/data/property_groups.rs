//! Grouping blocks by the set of properties they have: every set of property
//! hashes gets one collection of property mappings, shared by the blocks that
//! have that set; every property enum must keep the same values wherever it is
//! used.
use vstd::prelude::*;

use super::block::{
    property_enum_name, property_values, GeneratedProperty, PropertyCollectionData,
    PropertyVariantMapping,
};
use super::naming::{to_upper_camel_case, upper_camel_case};
use super::strings::{clone_strings, texts};

verus! {

/// The index of the first property with hash `h`, or -1.
pub open spec fn prop_index(props: Seq<GeneratedProperty>, h: i32) -> int
    decreases props.len(),
{
    if props.len() == 0 {
        -1
    } else if props.last().hash_key == h && prop_index(props.drop_last(), h) < 0 {
        props.len() - 1
    } else {
        prop_index(props.drop_last(), h)
    }
}

proof fn lemma_prop_index(props: Seq<GeneratedProperty>, h: i32)
    ensures
        -1 <= prop_index(props, h) < props.len(),
        prop_index(props, h) >= 0 ==> props[prop_index(props, h)].hash_key == h,
        forall|j: int| 0 <= j < props.len() && (prop_index(props, h) < 0 || j < prop_index(props, h))
            ==> #[trigger] props[j].hash_key != h,
    decreases props.len(),
{
    if props.len() > 0 {
        lemma_prop_index(props.drop_last(), h);
        assert forall|j: int| 0 <= j < props.len() - 1 implies props.drop_last()[j] == props[j] by {}
    }
}

/// The name of the enum of a property's values, in upper camel case.
pub open spec fn renamed_enum(p: GeneratedProperty) -> Seq<char> {
    upper_camel_case(property_enum_name(p.property_type, p.enum_name@))
}

/// The enums met so far: each name with its values, in the order first met.
pub type EnumTable = Seq<(Seq<char>, Seq<Seq<char>>)>;

/// The index of the enum named `name`, or -1.
pub open spec fn enum_index(table: EnumTable, name: Seq<char>) -> int
    decreases table.len(),
{
    if table.len() == 0 {
        -1
    } else if table.last().0 == name && enum_index(table.drop_last(), name) < 0 {
        table.len() - 1
    } else {
        enum_index(table.drop_last(), name)
    }
}

proof fn lemma_enum_index(table: EnumTable, name: Seq<char>)
    ensures
        -1 <= enum_index(table, name) < table.len(),
        enum_index(table, name) >= 0 ==> table[enum_index(table, name)].0 == name,
        forall|j: int| 0 <= j < table.len() && (enum_index(table, name) < 0 || j < enum_index(table, name))
            ==> #[trigger] table[j].0 != name,
    decreases table.len(),
{
    if table.len() > 0 {
        lemma_enum_index(table.drop_last(), name);
        assert forall|j: int| 0 <= j < table.len() - 1 implies table.drop_last()[j] == table[j] by {}
    }
}

/// Meeting property `p`: its enum is added with its values when new; an enum
/// met before with other values is refused with the property's serialized
/// name.
pub open spec fn enum_step(table: EnumTable, p: GeneratedProperty) -> Result<EnumTable, Seq<char>> {
    let i = enum_index(table, renamed_enum(p));
    if i < 0 {
        Ok(table.push((renamed_enum(p), property_values(p.property_type))))
    } else if table[i].1 == property_values(p.property_type) {
        Ok(table)
    } else {
        Err(p.serialized_name@)
    }
}

/// A block's properties, given by their hashes, met in order: the enums
/// after them and the block's mappings (each property's serialized name and its
/// enum), or the first refusal.
pub open spec fn block_props(props: Seq<GeneratedProperty>, table: EnumTable, hs: Seq<i32>) -> Result<
    (EnumTable, Seq<(Seq<char>, Seq<char>)>),
    Seq<char>,
>
    decreases hs.len(),
{
    if hs.len() == 0 {
        Ok((table, Seq::empty()))
    } else {
        match block_props(props, table, hs.drop_last()) {
            Err(e) => Err(e),
            Ok((t, m)) => {
                let p = props[prop_index(props, hs.last())];
                match enum_step(t, p) {
                    Err(e) => Err(e),
                    Ok(t2) => Ok((t2, m.push((p.serialized_name@, renamed_enum(p))))),
                }
            },
        }
    }
}

/// How many elements of `s` are at most `x`.
pub open spec fn count_at_most(s: Seq<i32>, x: i32) -> int
    decreases s.len(),
{
    if s.len() == 0 {
        0
    } else {
        count_at_most(s.drop_last(), x) + if s.last() <= x {
            1int
        } else {
            0int
        }
    }
}

/// `x` added to the sorted `s` unless present.
pub open spec fn insert_sorted(s: Seq<i32>, x: i32) -> Seq<i32> {
    if s.contains(x) {
        s
    } else {
        s.insert(count_at_most(s, x), x)
    }
}

/// The hashes in increasing order, each once.
pub open spec fn sorted_key(hs: Seq<i32>) -> Seq<i32>
    decreases hs.len(),
{
    if hs.len() == 0 {
        Seq::empty()
    } else {
        insert_sorted(sorted_key(hs.drop_last()), hs.last())
    }
}

/// Whether the elements increase strictly.
pub open spec fn strictly_sorted(s: Seq<i32>) -> bool {
    forall|i: int, j: int| 0 <= i < j < s.len() ==> #[trigger] s[i] < #[trigger] s[j]
}

proof fn lemma_count_split(s: Seq<i32>, x: i32)
    requires
        strictly_sorted(s),
    ensures
        0 <= count_at_most(s, x) <= s.len(),
        forall|i: int| 0 <= i < count_at_most(s, x) ==> #[trigger] s[i] <= x,
        forall|i: int| count_at_most(s, x) <= i < s.len() ==> #[trigger] s[i] > x,
    decreases s.len(),
{
    if s.len() > 0 {
        let t = s.drop_last();
        assert(strictly_sorted(t)) by {
            assert forall|i: int, j: int| 0 <= i < j < t.len() implies #[trigger] t[i] < #[trigger] t[j] by {
                assert(s[i] < s[j]);
            }
        }
        lemma_count_split(t, x);
        let c = count_at_most(t, x);
        if s.last() <= x {
            if c < t.len() {
                assert(s[c] < s[s.len() - 1]);
                assert(t[c] == s[c]);
            }
            assert forall|i: int| 0 <= i < count_at_most(s, x) implies #[trigger] s[i] <= x by {
                if i < t.len() {
                    assert(t[i] == s[i]);
                }
            }
        } else {
            assert forall|i: int| 0 <= i < count_at_most(s, x) implies #[trigger] s[i] <= x by {
                assert(t[i] == s[i]);
            }
            assert forall|i: int| count_at_most(s, x) <= i < s.len() implies #[trigger] s[i] > x by {
                if i < t.len() {
                    assert(t[i] == s[i]);
                }
            }
        }
    }
}

proof fn lemma_insert_sorted(s: Seq<i32>, x: i32)
    requires
        strictly_sorted(s),
    ensures
        strictly_sorted(insert_sorted(s, x)),
        forall|y: i32| #[trigger] insert_sorted(s, x).contains(y) <==> s.contains(y) || y == x,
{
    if !s.contains(x) {
        lemma_count_split(s, x);
        let c = count_at_most(s, x);
        let r = s.insert(c, x);
        assert forall|i: int| 0 <= i < c implies #[trigger] s[i] < x by {
            assert(s[i] <= x);
            assert(s[i] != x);
        }
        assert forall|i: int, j: int| 0 <= i < j < r.len() implies #[trigger] r[i] < #[trigger] r[j] by {
            if j < c {
                assert(s[i] < s[j]);
            } else if j == c {
                assert(s[i] < x);
            } else if i < c {
                assert(s[i] < x);
                assert(s[j - 1] > x);
            } else if i == c {
                assert(s[j - 1] > x);
            } else {
                assert(s[i - 1] < s[j - 1]);
            }
        }
        assert forall|y: i32| #[trigger] r.contains(y) <==> s.contains(y) || y == x by {
            if r.contains(y) {
                let k = choose|k: int| 0 <= k < r.len() && r[k] == y;
                if k < c {
                    assert(s[k] == y);
                } else if k > c {
                    assert(s[k - 1] == y);
                }
            }
            if s.contains(y) {
                let k = choose|k: int| 0 <= k < s.len() && s[k] == y;
                if k < c {
                    assert(r[k] == y);
                } else {
                    assert(r[k + 1] == y);
                }
            }
            if y == x {
                assert(r[c] == x);
            }
        }
    }
}

proof fn lemma_sorted_key(hs: Seq<i32>)
    ensures
        strictly_sorted(sorted_key(hs)),
        forall|y: i32| #[trigger] sorted_key(hs).contains(y) <==> hs.contains(y),
    decreases hs.len(),
{
    if hs.len() > 0 {
        let t = hs.drop_last();
        lemma_sorted_key(t);
        lemma_insert_sorted(sorted_key(t), hs.last());
        assert forall|y: i32| #[trigger] sorted_key(hs).contains(y) <==> hs.contains(y) by {
            if hs.contains(y) {
                let k = choose|k: int| 0 <= k < hs.len() && hs[k] == y;
                if k < t.len() {
                    assert(t[k] == y);
                    assert(t.contains(y));
                }
            }
            if t.contains(y) {
                let k = choose|k: int| 0 <= k < t.len() && t[k] == y;
                assert(hs[k] == y);
            }
            assert(hs[hs.len() - 1] == hs.last());
        }
    } else {
        assert forall|y: i32| #[trigger] sorted_key(hs).contains(y) <==> hs.contains(y) by {}
    }
}

proof fn lemma_sorted_unique(a: Seq<i32>, b: Seq<i32>)
    requires
        strictly_sorted(a),
        strictly_sorted(b),
        forall|y: i32| #[trigger] a.contains(y) <==> b.contains(y),
    ensures
        a == b,
    decreases a.len() + b.len(),
{
    if a.len() == 0 || b.len() == 0 {
        if a.len() > 0 {
            assert(a.contains(a[0]));
            assert(b.contains(a[0]));
        }
        if b.len() > 0 {
            assert(b.contains(b[0]));
            assert(a.contains(b[0]));
        }
        assert(a =~= b);
    } else {
        let ma = a.last();
        let mb = b.last();
        assert(a[a.len() - 1] == ma);
        assert(b[b.len() - 1] == mb);
        assert(a.contains(ma));
        assert(b.contains(ma));
        assert(b.contains(mb));
        assert(a.contains(mb));
        let ka = choose|k: int| 0 <= k < b.len() && b[k] == ma;
        let kb = choose|k: int| 0 <= k < a.len() && a[k] == mb;
        if ka < b.len() - 1 {
            assert(b[ka] < b[b.len() - 1]);
        }
        if kb < a.len() - 1 {
            assert(a[kb] < a[a.len() - 1]);
        }
        assert(ma == mb);
        let a2 = a.drop_last();
        let b2 = b.drop_last();
        assert(strictly_sorted(a2)) by {
            assert forall|i: int, j: int| 0 <= i < j < a2.len() implies #[trigger] a2[i] < #[trigger] a2[j] by {
                assert(a[i] < a[j]);
            }
        }
        assert(strictly_sorted(b2)) by {
            assert forall|i: int, j: int| 0 <= i < j < b2.len() implies #[trigger] b2[i] < #[trigger] b2[j] by {
                assert(b[i] < b[j]);
            }
        }
        assert forall|y: i32| #[trigger] a2.contains(y) <==> b2.contains(y) by {
            if a2.contains(y) {
                let k = choose|k: int| 0 <= k < a2.len() && a2[k] == y;
                assert(a[k] < a[a.len() - 1]);
                assert(a.contains(y)) by {
                    assert(a[k] == y);
                }
                assert(b.contains(y));
                assert(y < mb);
                let k2 = choose|k2: int| 0 <= k2 < b.len() && b[k2] == y;
                assert(k2 != b.len() - 1);
                assert(b2[k2] == y);
            }
            if b2.contains(y) {
                let k = choose|k: int| 0 <= k < b2.len() && b2[k] == y;
                assert(b[k] < b[b.len() - 1]);
                assert(b.contains(y)) by {
                    assert(b[k] == y);
                }
                assert(a.contains(y));
                assert(y < ma);
                let k2 = choose|k2: int| 0 <= k2 < a.len() && a[k2] == y;
                assert(k2 != a.len() - 1);
                assert(a2[k2] == y);
            }
        }
        lemma_sorted_unique(a2, b2);
        assert(a =~= a2.push(ma));
        assert(b =~= b2.push(mb));
    }
}

/// The key a block is grouped by holds its property hashes in increasing
/// order, each once; so blocks whose hashes form the same set, in whatever
/// order and with whatever repeats, share a collection.
pub proof fn law_key_is_the_property_set(a: Seq<i32>, b: Seq<i32>)
    ensures
        strictly_sorted(sorted_key(a)),
        forall|y: i32| #[trigger] sorted_key(a).contains(y) <==> a.contains(y),
        (forall|y: i32| #[trigger] a.contains(y) <==> b.contains(y)) ==> sorted_key(a) == sorted_key(b),
{
    lemma_sorted_key(a);
    lemma_sorted_key(b);
    if forall|y: i32| #[trigger] a.contains(y) <==> b.contains(y) {
        assert forall|y: i32| #[trigger] sorted_key(a).contains(y) <==> sorted_key(b).contains(y) by {
            assert(sorted_key(a).contains(y) <==> a.contains(y));
            assert(sorted_key(b).contains(y) <==> b.contains(y));
            assert(a.contains(y) <==> b.contains(y));
        }
        lemma_sorted_unique(sorted_key(a), sorted_key(b));
    }
}

/// A collection as the grouping sees it: its hash set, its mappings and its
/// blocks' names.
pub type GroupView = (Seq<i32>, Seq<(Seq<char>, Seq<char>)>, Seq<Seq<char>>);

/// The index of the collection whose hash set is `key`, or -1.
pub open spec fn group_index(groups: Seq<GroupView>, key: Seq<i32>) -> int
    decreases groups.len(),
{
    if groups.len() == 0 {
        -1
    } else if groups.last().0 == key && group_index(groups.drop_last(), key) < 0 {
        groups.len() - 1
    } else {
        group_index(groups.drop_last(), key)
    }
}

proof fn lemma_group_index(groups: Seq<GroupView>, key: Seq<i32>)
    ensures
        -1 <= group_index(groups, key) < groups.len(),
        group_index(groups, key) >= 0 ==> groups[group_index(groups, key)].0 == key,
        forall|j: int| 0 <= j < groups.len() && (group_index(groups, key) < 0 || j < group_index(groups, key))
            ==> #[trigger] groups[j].0 != key,
    decreases groups.len(),
{
    if groups.len() > 0 {
        lemma_group_index(groups.drop_last(), key);
        assert forall|j: int| 0 <= j < groups.len() - 1 implies groups.drop_last()[j] == groups[j] by {}
    }
}

/// The blocks (name and property hashes) grouped in order: each block with
/// properties joins the collection of its hash set, which is made, with the
/// block's mappings, for the first block that has that set. The enums met, and
/// the collections in the order made; or the serialized name of the first
/// property whose enum was met before with other values.
pub open spec fn spec_group(blocks: Seq<(Seq<char>, Seq<i32>)>, props: Seq<GeneratedProperty>) -> Result<
    (EnumTable, Seq<GroupView>),
    Seq<char>,
>
    decreases blocks.len(),
{
    if blocks.len() == 0 {
        Ok((Seq::empty(), Seq::empty()))
    } else {
        match spec_group(blocks.drop_last(), props) {
            Err(e) => Err(e),
            Ok((t, g)) => {
                let (name, hs) = blocks.last();
                match block_props(props, t, hs) {
                    Err(e) => Err(e),
                    Ok((t2, m)) => {
                        let key = sorted_key(hs);
                        if key.len() == 0 {
                            Ok((t2, g))
                        } else {
                            let gi = group_index(g, key);
                            if gi >= 0 {
                                Ok((t2, g.update(gi, (g[gi].0, g[gi].1, g[gi].2.push(name)))))
                            } else {
                                Ok((t2, g.push((key, m, seq![name]))))
                            }
                        }
                    },
                }
            },
        }
    }
}

/// The texts of a list of mappings.
pub open spec fn mappings_view(m: Seq<PropertyVariantMapping>) -> Seq<(Seq<char>, Seq<char>)> {
    m.map_values(|v: PropertyVariantMapping| (v.original_name@, v.property_enum@))
}

/// The collections as the grouping sees them.
pub open spec fn groups_view(g: Seq<(Vec<i32>, PropertyCollectionData)>) -> Seq<GroupView> {
    g.map_values(
        |e: (Vec<i32>, PropertyCollectionData)|
            (e.0@, mappings_view(e.1.variant_mappings@), texts(e.1.block_names@)),
    )
}

/// The enum table as the grouping sees it.
pub open spec fn table_view(t: Seq<(String, Vec<String>)>) -> EnumTable {
    t.map_values(|e: (String, Vec<String>)| (e.0@, texts(e.1@)))
}

/// The blocks as the grouping sees them.
pub open spec fn blocks_view(b: Seq<(String, Vec<i32>)>) -> Seq<(Seq<char>, Seq<i32>)> {
    b.map_values(|e: (String, Vec<i32>)| (e.0@, e.1@))
}

fn find_prop(props: &Vec<GeneratedProperty>, h: i32) -> (r: usize)
    requires
        prop_index(props@, h) >= 0,
    ensures
        r == prop_index(props@, h),
        r < props@.len(),
{
    proof {
        lemma_prop_index(props@, h);
    }
    let mut i: usize = 0;
    while i < props.len()
        invariant
            i <= props@.len(),
            0 <= prop_index(props@, h) < props@.len(),
            props@[prop_index(props@, h)].hash_key == h,
            forall|j: int| 0 <= j < prop_index(props@, h) ==> #[trigger] props@[j].hash_key != h,
            forall|j: int| 0 <= j < i ==> #[trigger] props@[j].hash_key != h,
        decreases props.len() - i,
    {
        if props[i].hash_key == h {
            return i;
        }
        i = i + 1;
    }
    0
}

fn find_enum(table: &Vec<(String, Vec<String>)>, name: &String) -> (r: Option<usize>)
    ensures
        match r {
            Some(i) => i == enum_index(table_view(table@), name@) && i < table@.len(),
            None => enum_index(table_view(table@), name@) == -1,
        },
{
    let ghost tv = table_view(table@);
    proof {
        lemma_enum_index(tv, name@);
    }
    let mut i: usize = 0;
    while i < table.len()
        invariant
            tv == table_view(table@),
            tv.len() == table@.len(),
            i <= table@.len(),
            -1 <= enum_index(tv, name@) < tv.len(),
            enum_index(tv, name@) >= 0 ==> tv[enum_index(tv, name@)].0 == name@,
            forall|j: int| 0 <= j < tv.len() && (enum_index(tv, name@) < 0 || j < enum_index(tv, name@))
                ==> #[trigger] tv[j].0 != name@,
            forall|j: int| 0 <= j < i ==> #[trigger] tv[j].0 != name@,
        decreases table.len() - i,
    {
        if table[i].0 == *name {
            assert(tv[i as int].0 == name@);
            return Some(i);
        }
        assert(tv[i as int].0 != name@);
        i = i + 1;
    }
    None
}

fn same_texts(a: &Vec<String>, b: &Vec<String>) -> (r: bool)
    ensures
        r == (texts(a@) == texts(b@)),
{
    if a.len() != b.len() {
        assert(texts(a@).len() != texts(b@).len());
        return false;
    }
    let mut i: usize = 0;
    while i < a.len()
        invariant
            a@.len() == b@.len(),
            i <= a@.len(),
            forall|j: int| 0 <= j < i ==> #[trigger] a@[j]@ == b@[j]@,
        decreases a.len() - i,
    {
        if a[i] != b[i] {
            assert(texts(a@)[i as int] != texts(b@)[i as int]);
            return false;
        }
        i = i + 1;
    }
    assert(texts(a@) =~= texts(b@));
    true
}

fn same_key(a: &Vec<i32>, b: &Vec<i32>) -> (r: bool)
    ensures
        r == (a@ == b@),
{
    if a.len() != b.len() {
        return false;
    }
    let mut i: usize = 0;
    while i < a.len()
        invariant
            a@.len() == b@.len(),
            i <= a@.len(),
            forall|j: int| 0 <= j < i ==> #[trigger] a@[j] == b@[j],
        decreases a.len() - i,
    {
        if a[i] != b[i] {
            return false;
        }
        i = i + 1;
    }
    assert(a@ =~= b@);
    true
}

fn insert_key(key: &mut Vec<i32>, x: i32)
    ensures
        final(key)@ == insert_sorted(old(key)@, x),
{
    let mut n: usize = 0;
    let mut i: usize = 0;
    let mut present = false;
    while i < key.len()
        invariant
            i <= key@.len(),
            key@ == old(key)@,
            n == count_at_most(key@.take(i as int), x),
            n <= i,
            present == (exists|j: int| 0 <= j < i && #[trigger] key@[j] == x),
        decreases key.len() - i,
    {
        assert(key@.take(i + 1).drop_last() =~= key@.take(i as int));
        if key[i] == x {
            present = true;
        }
        if key[i] <= x {
            n = n + 1;
        }
        i = i + 1;
    }
    assert(key@.take(i as int) =~= key@);
    if !present {
        assert(!key@.contains(x));
        key.insert(n, x);
    } else {
        let ghost j = choose|j: int| 0 <= j < i && #[trigger] key@[j] == x;
        assert(key@.contains(x));
    }
}

fn find_group(groups: &Vec<(Vec<i32>, PropertyCollectionData)>, key: &Vec<i32>) -> (r: Option<usize>)
    ensures
        match r {
            Some(i) => i == group_index(groups_view(groups@), key@) && i < groups@.len(),
            None => group_index(groups_view(groups@), key@) == -1,
        },
{
    let ghost gv = groups_view(groups@);
    proof {
        lemma_group_index(gv, key@);
    }
    let mut i: usize = 0;
    while i < groups.len()
        invariant
            gv == groups_view(groups@),
            gv.len() == groups@.len(),
            i <= groups@.len(),
            -1 <= group_index(gv, key@) < gv.len(),
            group_index(gv, key@) >= 0 ==> gv[group_index(gv, key@)].0 == key@,
            forall|j: int| 0 <= j < gv.len() && (group_index(gv, key@) < 0 || j < group_index(gv, key@))
                ==> #[trigger] gv[j].0 != key@,
            forall|j: int| 0 <= j < i ==> #[trigger] gv[j].0 != key@,
        decreases groups.len() - i,
    {
        if same_key(&groups[i].0, key) {
            assert(gv[i as int].0 == key@);
            return Some(i);
        }
        assert(gv[i as int].0 != key@);
        i = i + 1;
    }
    None
}

/// Once a prefix of the blocks is refused, so are all the blocks, for the
/// same reason.
proof fn lemma_group_err_extends(bv: Seq<(Seq<char>, Seq<i32>)>, props: Seq<GeneratedProperty>, k: int)
    requires
        0 <= k <= bv.len(),
        spec_group(bv.take(k), props) is Err,
    ensures
        spec_group(bv, props) == spec_group(bv.take(k), props),
    decreases bv.len() - k,
{
    if k < bv.len() {
        assert(bv.take(k + 1).drop_last() =~= bv.take(k));
        lemma_group_err_extends(bv, props, k + 1);
    } else {
        assert(bv.take(k) =~= bv);
    }
}

/// Once a prefix of a block's properties is refused, so is the whole block,
/// for the same reason.
proof fn lemma_block_err_extends(props: Seq<GeneratedProperty>, t: EnumTable, hs: Seq<i32>, k: int)
    requires
        0 <= k <= hs.len(),
        block_props(props, t, hs.take(k)) is Err,
    ensures
        block_props(props, t, hs) == block_props(props, t, hs.take(k)),
    decreases hs.len() - k,
{
    if k < hs.len() {
        assert(hs.take(k + 1).drop_last() =~= hs.take(k));
        lemma_block_err_extends(props, t, hs, k + 1);
    } else {
        assert(hs.take(k) =~= hs);
    }
}

/// Meets the properties of one block (by their hashes) in order; see
/// `block_props`. Also gives the block's hash set, sorted.
fn add_block_props(
    props: &Vec<GeneratedProperty>,
    table: &mut Vec<(String, Vec<String>)>,
    hs: &Vec<i32>,
) -> (r: Result<(Vec<PropertyVariantMapping>, Vec<i32>), String>)
    requires
        forall|j: int| 0 <= j < hs@.len() ==> prop_index(props@, #[trigger] hs@[j]) >= 0,
    ensures
        match block_props(props@, table_view(old(table)@), hs@) {
            Ok((t, m)) => r is Ok && table_view(final(table)@) == t && mappings_view(r->Ok_0.0@) == m
                && r->Ok_0.1@ == sorted_key(hs@),
            Err(e) => r is Err && r->Err_0@ == e,
        },
{
    let ghost t0 = table_view(table@);
    let mut mappings: Vec<PropertyVariantMapping> = Vec::new();
    let mut key: Vec<i32> = Vec::new();
    let mut j: usize = 0;
    assert(hs@.take(0) =~= Seq::<i32>::empty());
    assert(mappings_view(mappings@) =~= Seq::<(Seq<char>, Seq<char>)>::empty());
    while j < hs.len()
        invariant
            j <= hs@.len(),
            t0 == table_view(old(table)@),
            forall|k: int| 0 <= k < hs@.len() ==> prop_index(props@, #[trigger] hs@[k]) >= 0,
            block_props(props@, t0, hs@.take(j as int)) == Ok::<(EnumTable, Seq<(Seq<char>, Seq<char>)>), Seq<char>>(
                (table_view(table@), mappings_view(mappings@)),
            ),
            key@ == sorted_key(hs@.take(j as int)),
        decreases hs.len() - j,
    {
        let h = hs[j];
        assert(hs@.take(j + 1).drop_last() =~= hs@.take(j as int));
        assert(hs@.take(j + 1).last() == h);
        let pi = find_prop(props, h);
        let p = &props[pi];
        let prop = p.to_property();
        let renamed = to_upper_camel_case(prop.enum_name.as_str());
        assert(renamed@ == renamed_enum(*p));
        match find_enum(table, &renamed) {
            Some(i) => {
                if !same_texts(&table[i].1, &prop.values) {
                    proof {
                        assert(table_view(table@)[i as int].1 == texts(table@[i as int].1@));
                        assert(block_props(props@, t0, hs@.take(j + 1)) == Err::<(EnumTable, Seq<(Seq<char>, Seq<char>)>), Seq<char>>(p.serialized_name@));
                        lemma_block_err_extends(props@, t0, hs@, j + 1);
                    }
                    return Err(p.serialized_name.clone());
                }
                proof {
                    assert(table_view(table@)[i as int].1 == texts(table@[i as int].1@));
                }
            },
            None => {
                let ghost before = table@;
                table.push((renamed.clone(), prop.values));
                proof {
                    assert(table_view(table@) =~= table_view(before).push((renamed@, property_values(p.property_type))));
                }
            },
        }
        let ghost mbefore = mappings@;
        mappings.push(PropertyVariantMapping { original_name: p.serialized_name.clone(), property_enum: renamed });
        proof {
            assert(mappings_view(mappings@) =~= mappings_view(mbefore).push((p.serialized_name@, renamed_enum(*p))));
        }
        insert_key(&mut key, h);
        j = j + 1;
    }
    assert(hs@.take(j as int) =~= hs@);
    Ok((mappings, key))
}

/// Groups the blocks (each a name and the hashes of its properties) by their
/// sets of properties; see `spec_group`. The collections come in the order
/// first made; a property whose enum was met before with other values is
/// refused with the property's serialized name. Every hash must be one of
/// `props`.
pub fn group_property_collections(blocks: &Vec<(String, Vec<i32>)>, props: &Vec<GeneratedProperty>) -> (r: Result<
    Vec<(Vec<i32>, PropertyCollectionData)>,
    String,
>)
    requires
        forall|b: int, j: int|
            0 <= b < blocks@.len() && 0 <= j < blocks@[b].1@.len() ==> prop_index(props@, #[trigger] blocks@[b].1@[j]) >= 0,
    ensures
        match spec_group(blocks_view(blocks@), props@) {
            Ok((_, g)) => r is Ok && groups_view(r->Ok_0@) == g,
            Err(e) => r is Err && r->Err_0@ == e,
        },
{
    let ghost bv = blocks_view(blocks@);
    let mut table: Vec<(String, Vec<String>)> = Vec::new();
    let mut groups: Vec<(Vec<i32>, PropertyCollectionData)> = Vec::new();
    let mut i: usize = 0;
    assert(table_view(table@) =~= Seq::<(Seq<char>, Seq<Seq<char>>)>::empty());
    assert(groups_view(groups@) =~= Seq::<GroupView>::empty());
    assert(bv.take(0) =~= Seq::<(Seq<char>, Seq<i32>)>::empty());
    while i < blocks.len()
        invariant
            bv == blocks_view(blocks@),
            bv.len() == blocks@.len(),
            i <= blocks@.len(),
            forall|b: int, j: int|
                0 <= b < blocks@.len() && 0 <= j < blocks@[b].1@.len() ==> prop_index(props@, #[trigger] blocks@[b].1@[j]) >= 0,
            spec_group(bv.take(i as int), props@) == Ok::<(EnumTable, Seq<GroupView>), Seq<char>>(
                (table_view(table@), groups_view(groups@)),
            ),
        decreases blocks.len() - i,
    {
        assert(bv.take(i + 1).drop_last() =~= bv.take(i as int));
        assert(bv.take(i + 1).last() == (blocks@[i as int].0@, blocks@[i as int].1@));
        let name = &blocks[i].0;
        let hs = &blocks[i].1;
        assert forall|j: int| 0 <= j < hs@.len() implies prop_index(props@, #[trigger] hs@[j]) >= 0 by {
            assert(hs@[j] == blocks@[i as int].1@[j]);
        }
        let (mappings, key) = match add_block_props(props, &mut table, hs) {
            Ok(v) => v,
            Err(e) => {
                proof {
                    lemma_group_err_extends(bv, props@, i + 1);
                }
                return Err(e);
            },
        };
        if key.len() > 0 {
            match find_group(&groups, &key) {
                Some(gi) => {
                    let ghost before = groups@;
                    let mut entry = groups.remove(gi);
                    entry.1.add_block_name(name.clone());
                    groups.insert(gi, entry);
                    proof {
                        assert(groups@ =~= before.update(gi as int, entry));
                        assert(texts(entry.1.block_names@) =~= texts(before[gi as int].1.block_names@).push(name@));
                        assert(entry.0@ == before[gi as int].0@);
                        assert(entry.1.variant_mappings@ == before[gi as int].1.variant_mappings@);
                        let gb = groups_view(before);
                        assert(groups_view(groups@) =~= gb.update(gi as int, (gb[gi as int].0, gb[gi as int].1, gb[gi as int].2.push(name@))));
                    }
                },
                None => {
                    let mut data = PropertyCollectionData::from_mappings(mappings);
                    data.add_block_name(name.clone());
                    let ghost before = groups@;
                    groups.push((key, data));
                    proof {
                        assert(texts(data.block_names@) =~= seq![name@]);
                        assert(groups_view(groups@) =~= groups_view(before).push((key@, mappings_view(data.variant_mappings@), seq![name@])));
                    }
                },
            }
        }
        i = i + 1;
    }
    assert(bv.take(i as int) =~= bv);
    Ok(groups)
}

} // verus!
