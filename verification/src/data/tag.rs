//! Registry tags: entries that name an item or a tag (`#` and the tag's name),
//! and lists of such entries.
use vstd::prelude::*;

verus! {

/// The registries that tags are grouped by.
#[derive(Debug, Clone, Copy, PartialEq, Eq, Structural, Hash)]
pub enum RegistryKey {
    Instrument,
    WorldGenBiome,
    PointOfInterestType,
    EntityType,
    DamageType,
    BannerPattern,
    Block,
    Fluid,
    Enchantment,
    CatVariant,
    PaintingVariant,
    Item,
    GameEvent,
}

/// The registries whose identifier is known.
pub open spec fn has_identifier(key: RegistryKey) -> bool {
    key is Block || key is Item || key is Fluid || key is EntityType || key is GameEvent
}

impl RegistryKey {
    /// The identifier of the registry, as it appears in resource paths.
    pub fn identifier_string(&self) -> (r: &str)
        requires
            has_identifier(*self),
        ensures
            *self is Block ==> r@ == "block"@,
            *self is Item ==> r@ == "item"@,
            *self is Fluid ==> r@ == "fluid"@,
            *self is EntityType ==> r@ == "entity_type"@,
            *self is GameEvent ==> r@ == "game_event"@,
    {
        match self {
            RegistryKey::Block => "block",
            RegistryKey::Item => "item",
            RegistryKey::Fluid => "fluid",
            RegistryKey::EntityType => "entity_type",
            _ => "game_event",
        }
    }
}

/// The tags of each registry: per registry, each tag's name and its entries.
pub struct TagRegistry {
    pub categories: Vec<(RegistryKey, Vec<(String, Vec<Option<String>>)>)>,
}

/// The index of the first category of `key`.
pub open spec fn category_index(
    cats: Seq<(RegistryKey, Vec<(String, Vec<Option<String>>)>)>,
    key: RegistryKey,
) -> int
    decreases cats.len(),
{
    if cats.len() == 0 {
        -1
    } else if cats.last().0 == key && category_index(cats.drop_last(), key) < 0 {
        cats.len() - 1
    } else {
        category_index(cats.drop_last(), key)
    }
}

/// The index of the first tag named `name`, or -1.
pub open spec fn tag_index(tags: Seq<(String, Vec<Option<String>>)>, name: Seq<char>) -> int
    decreases tags.len(),
{
    if tags.len() == 0 {
        -1
    } else if tags.last().0@ == name && tag_index(tags.drop_last(), name) < 0 {
        tags.len() - 1
    } else {
        tag_index(tags.drop_last(), name)
    }
}

proof fn lemma_category_index(cats: Seq<(RegistryKey, Vec<(String, Vec<Option<String>>)>)>, key: RegistryKey)
    ensures
        -1 <= category_index(cats, key) < cats.len(),
        category_index(cats, key) >= 0 ==> cats[category_index(cats, key)].0 == key,
        forall|j: int| 0 <= j < cats.len() && (category_index(cats, key) < 0 || j < category_index(cats, key))
            ==> #[trigger] cats[j].0 != key,
    decreases cats.len(),
{
    if cats.len() > 0 {
        lemma_category_index(cats.drop_last(), key);
        assert forall|j: int| 0 <= j < cats.len() - 1 implies cats.drop_last()[j] == cats[j] by {}
    }
}

proof fn lemma_tag_index(tags: Seq<(String, Vec<Option<String>>)>, name: Seq<char>)
    ensures
        -1 <= tag_index(tags, name) < tags.len(),
        tag_index(tags, name) >= 0 ==> tags[tag_index(tags, name)].0@ == name,
        forall|j: int| 0 <= j < tags.len() && (tag_index(tags, name) < 0 || j < tag_index(tags, name))
            ==> #[trigger] tags[j].0@ != name,
    decreases tags.len(),
{
    if tags.len() > 0 {
        lemma_tag_index(tags.drop_last(), name);
        assert forall|j: int| 0 <= j < tags.len() - 1 implies tags.drop_last()[j] == tags[j] by {}
    }
}

/// The entries of the tag `tag` in the registry `tag_category`, or `None` when
/// the registry has no such tag. The registry itself must be present.
pub fn get_tag_values<'a>(registry: &'a TagRegistry, tag_category: RegistryKey, tag: &str) -> (r:
    Option<&'a Vec<Option<String>>>)
    requires
        category_index(registry.categories@, tag_category) >= 0,
    ensures
        ({
            let tags = registry.categories@[category_index(registry.categories@, tag_category)].1@;
            &&& r is Some <==> tag_index(tags, tag@) >= 0
            &&& r is Some ==> *r->Some_0 == tags[tag_index(tags, tag@)].1
        }),
{
    proof {
        lemma_category_index(registry.categories@, tag_category);
    }
    let ghost ci = category_index(registry.categories@, tag_category);
    let mut i: usize = 0;
    while registry.categories[i].0 != tag_category
        invariant
            0 <= i <= ci,
            ci == category_index(registry.categories@, tag_category),
            0 <= ci < registry.categories@.len(),
            ci < registry.categories.len(),
            registry.categories@[ci].0 == tag_category,
            forall|j: int| 0 <= j < ci ==> #[trigger] registry.categories@[j].0 != tag_category,
        decreases ci - i,
    {
        assert(i as int != ci);
        i = i + 1;
    }
    assert(i as int == ci);
    let tags = &registry.categories[i].1;
    proof {
        lemma_tag_index(tags@, tag@);
    }
    let key = String::from_str(tag);
    let mut k: usize = 0;
    while k < tags.len()
        invariant
            k <= tags@.len(),
            key@ == tag@,
            forall|j: int| 0 <= j < k ==> #[trigger] tags@[j].0@ != tag@,
            i == ci,
            ci == category_index(registry.categories@, tag_category),
            0 <= ci < registry.categories@.len(),
            *tags == registry.categories@[ci].1,
            -1 <= tag_index(tags@, tag@) < tags@.len(),
            tag_index(tags@, tag@) >= 0 ==> tags@[tag_index(tags@, tag@)].0@ == tag@,
            forall|j: int|
                0 <= j < tags@.len() && (tag_index(tags@, tag@) < 0 || j < tag_index(tags@, tag@))
                    ==> #[trigger] tags@[j].0@ != tag@,
        decreases tags.len() - k,
    {
        if tags[k].0 == key {
            assert(tags@[k as int].0@ == tag@);
            assert(tag_index(tags@, tag@) == k);
            return Some(&tags[k].1);
        }
        k = k + 1;
    }
    None
}

/// A tag entry's meaning: an item name, or the name of a tag.
pub ghost enum TagName {
    Item(Seq<char>),
    Tag(Seq<char>),
}

/// An entry of a tag: an item, or (written with a leading `#`) another tag.
#[derive(Debug, Hash, Clone)]
pub enum TagType {
    Item(String),
    Tag(String),
}

impl View for TagType {
    type V = TagName;

    open spec fn view(&self) -> TagName {
        match self {
            TagType::Item(s) => TagName::Item(s@),
            TagType::Tag(s) => TagName::Tag(s@),
        }
    }
}

impl PartialEq for TagType {
    fn eq(&self, other: &TagType) -> (r: bool) {
        match (self, other) {
            (TagType::Item(a), TagType::Item(b)) => *a == *b,
            (TagType::Tag(a), TagType::Tag(b)) => *a == *b,
            _ => false,
        }
    }
}

impl vstd::std_specs::cmp::PartialEqSpecImpl for TagType {
    open spec fn obeys_eq_spec() -> bool {
        true
    }

    open spec fn eq_spec(&self, other: &TagType) -> bool {
        self@ == other@
    }
}

impl Eq for TagType {
}

/// The text that stands for a tag entry.
pub open spec fn tag_text(t: TagName) -> Seq<char> {
    match t {
        TagName::Item(name) => name,
        TagName::Tag(tag) => seq!['#'] + tag,
    }
}

/// The entry that a text stands for: a tag when it starts with `#`.
pub open spec fn parse_tag_text(s: Seq<char>) -> TagName {
    if s.len() > 0 && s[0] == '#' {
        TagName::Tag(s.drop_first())
    } else {
        TagName::Item(s)
    }
}

/// Writing the entry that a text stands for gives the text back.
pub proof fn law_tag_text_roundtrip(s: Seq<char>)
    ensures
        tag_text(parse_tag_text(s)) == s,
{
    if s.len() > 0 && s[0] == '#' {
        assert(seq!['#'] + s.drop_first() =~= s);
    }
}

/// Reading the text of an entry gives the entry back, unless it is an item
/// whose name starts with `#` (that text stands for a tag).
pub proof fn law_tag_parse_roundtrip(t: TagName)
    requires
        t matches TagName::Item(name) ==> !(name.len() > 0 && name[0] == '#'),
    ensures
        parse_tag_text(tag_text(t)) == t,
{
    if let TagName::Tag(tag) = t {
        assert((seq!['#'] + tag).drop_first() =~= tag);
    }
}

/// A copy of a tag entry.
pub fn copy_tag(t: &TagType) -> (r: TagType)
    ensures
        r@ == t@,
{
    match t {
        TagType::Item(s) => TagType::Item(s.clone()),
        TagType::Tag(s) => TagType::Tag(s.clone()),
    }
}

impl TagType {
    /// The text of the entry: the item name, or `#` and the tag name.
    pub fn serialize(&self) -> (r: String)
        ensures
            r@ == tag_text(self@),
    {
        match self {
            TagType::Item(name) => name.clone(),
            TagType::Tag(tag) => {
                let mut s = String::from_str("#");
                s.append(tag.as_str());
                proof {
                    reveal_strlit("#");
                }
                s
            },
        }
    }
}

/// Reads tag entries from text.
pub struct TagVisitor;

impl TagVisitor {
    /// The entry that `v` stands for: a tag when it starts with `#`, else an item.
    pub fn visit_str(&self, v: &str) -> (r: TagType)
        ensures
            r@ == parse_tag_text(v@),
    {
        let n = v.unicode_len();
        if n > 0 && v.get_char(0) == '#' {
            TagType::Tag(String::from_str(v.substring_char(1, n)))
        } else {
            TagType::Item(String::from_str(v))
        }
    }
}

/// The entries of an ingredient or tag list: one entry, or several.
#[derive(Debug, Clone, Hash)]
pub enum RegistryEntryList {
    Single(TagType),
    Many(Vec<TagType>),
}

/// The entry names of a list of entries.
pub open spec fn tag_names(v: Seq<TagType>) -> Seq<TagName> {
    v.map_values(|t: TagType| t@)
}

/// The entries that a list stands for.
pub open spec fn entry_list_values(l: RegistryEntryList) -> Seq<TagName> {
    match l {
        RegistryEntryList::Single(t) => seq![t@],
        RegistryEntryList::Many(v) => tag_names(v@),
    }
}

impl RegistryEntryList {
    /// The list read from its entries: a single entry stands alone.
    pub fn from_entries(entries: Vec<TagType>) -> (r: RegistryEntryList)
        ensures
            entries.len() == 1 ==> (r matches RegistryEntryList::Single(t) && t@ == entries@[0]@),
            entries.len() != 1 ==> (r matches RegistryEntryList::Many(v) && v@ == entries@),
    {
        if entries.len() == 1 {
            RegistryEntryList::Single(copy_tag(&entries[0]))
        } else {
            RegistryEntryList::Many(entries)
        }
    }

    /// All entries of the list.
    pub fn get_values(&self) -> (r: Vec<TagType>)
        ensures
            tag_names(r@) == entry_list_values(*self),
    {
        match self {
            RegistryEntryList::Single(s) => {
                let mut v: Vec<TagType> = Vec::new();
                v.push(copy_tag(s));
                assert(tag_names(v@) =~= seq![s@]);
                v
            },
            RegistryEntryList::Many(s) => {
                let mut v: Vec<TagType> = Vec::new();
                let mut i: usize = 0;
                while i < s.len()
                    invariant
                        i <= s@.len(),
                        tag_names(v@) =~= tag_names(s@.subrange(0, i as int)),
                    decreases s.len() - i,
                {
                    let t = copy_tag(&s[i]);
                    let ghost prev = v@;
                    v.push(t);
                    proof {
                        assert(s@.subrange(0, i + 1) =~= s@.subrange(0, i as int).push(s@[i as int]));
                        assert(tag_names(v@) =~= tag_names(prev).push(t@));
                        assert(tag_names(s@.subrange(0, i + 1)) =~= tag_names(s@.subrange(0, i as int)).push(s@[i as int]@));
                    }
                    i = i + 1;
                }
                assert(s@.subrange(0, s@.len() as int) =~= s@);
                v
            },
        }
    }

    /// Whether `other` is one of the entries of the list.
    pub fn eq(&self, other: &TagType) -> (r: bool)
        ensures
            r == entry_list_values(*self).contains(other@),
    {
        match self {
            RegistryEntryList::Single(ingredient) => {
                let r = *other == *ingredient;
                assert(r ==> seq![ingredient@][0] == other@);
                r
            },
            RegistryEntryList::Many(ingredients) => {
                let mut i: usize = 0;
                while i < ingredients.len()
                    invariant
                        i <= ingredients@.len(),
                        entry_list_values(*self) == tag_names(ingredients@),
                        forall|j: int| 0 <= j < i ==> #[trigger] ingredients@[j]@ != other@,
                    decreases ingredients.len() - i,
                {
                    if ingredients[i] == *other {
                        assert(tag_names(ingredients@).len() == ingredients@.len());
                        assert(tag_names(ingredients@)[i as int] == other@);
                        return true;
                    }
                    i = i + 1;
                }
                assert forall|j: int| 0 <= j < tag_names(ingredients@).len() implies tag_names(
                    ingredients@,
                )[j] != other@ by {
                    assert(ingredients@[j]@ != other@);
                }
                false
            },
        }
    }
}

} // verus!
