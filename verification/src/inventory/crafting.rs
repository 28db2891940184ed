//! Crafting: recipes, the grid they are matched against, and the result slot's
//! bookkeeping. Recipes and item tags are data handed in; an ingredient holds
//! the registry ids of the items it accepts, its tags already expanded.
use vstd::prelude::*;

use super::clicks::{player_layout, with_stacks, ScreenView};
use super::player_inventory::empty_stack;
use super::screen::{grid_len, grid_side, grid_stacks, insert_item_effect, ScreenKind, ScreenState, SlotKind};
use super::stack::{min_u8, same_kind, spec_is_empty, with_count, ArmorFit, ItemStack};

verus! {

/// Matching of recipes against a grid; it holds no state of its own.
pub struct RecipeMatcher {}

/// Finding of the recipes the available items allow; it holds no state of
/// its own.
pub struct RecipeFinder {}

/// A window whose recipes can be looked up.
pub trait RecipeFinderScreenHandler {}

/// An inventory laid out as a crafting grid.
pub trait RecipeInputInventory {
    fn get_width(&self) -> usize;

    fn get_height(&self) -> usize;
}

/// What a recipe accepts in one place: the registry ids of the items.
#[derive(Clone, Debug)]
pub struct Ingredient {
    pub items: Vec<u16>,
}

impl Ingredient {
    /// Whether the ingredient accepts the item.
    pub fn match_item(&self, item: u16) -> (r: bool)
        ensures
            r == self.items@.contains(item),
    {
        let mut i: usize = 0;
        while i < self.items.len()
            invariant
                i <= self.items@.len(),
                forall|k: int| 0 <= k < i ==> #[trigger] self.items@[k] != item,
            decreases self.items.len() - i,
        {
            if self.items[i] == item {
                return true;
            }
            i = i + 1;
        }
        false
    }
}

/// What a recipe makes: an item and how many. The item's stack size and
/// armor slot, which its data gives, come with it.
#[derive(Clone, Copy, Debug, PartialEq, Eq, Structural)]
pub struct RecipeResultStruct {
    pub item: u16,
    pub count: u8,
    pub max_stack_size: u8,
    pub armor: ArmorFit,
}

/// The stack a recipe's result stands for.
pub open spec fn result_stack(r: RecipeResultStruct) -> ItemStack {
    ItemStack { item: r.item, components: 0, max_stack_size: r.max_stack_size, armor: r.armor, item_count: r.count }
}

impl RecipeResultStruct {
    /// The stack the result stands for.
    pub fn to_stack(&self) -> (r: ItemStack)
        ensures
            r == result_stack(*self),
    {
        ItemStack {
            item: self.item,
            components: 0,
            max_stack_size: self.max_stack_size,
            armor: self.armor,
            item_count: self.count,
        }
    }
}

/// The crafting recipes.
#[derive(Clone, Debug)]
pub enum CraftingRecipeTypes {
    /// A pattern of rows; a space asks for an empty slot, any other character
    /// for the ingredient the key gives it. Mirrored patterns match too.
    CraftingShaped { key: Vec<(char, Ingredient)>, pattern: Vec<Vec<char>>, result: RecipeResultStruct },
    /// Each ingredient once, anywhere in the grid.
    CraftingShapeless { ingredients: Vec<Ingredient>, result: RecipeResultStruct },
    /// Two items, each the input or the material.
    CraftingTransmute { input: Ingredient, material: Ingredient, result: RecipeResultStruct },
    /// Four pot ingredients (sherds or bricks) around the centre of a 3 by 3
    /// grid make the pot.
    CraftingDecoratedPot { ingredients: Ingredient, pot: RecipeResultStruct },
    /// Recipes with their own rules, which no grid matches here.
    CraftingSpecial,
}

/// Whether the first `width` characters of the row read the same backwards.
pub open spec fn reads_back(row: Seq<char>, width: int) -> bool {
    forall|j: int| 0 <= j < width / 2 ==> #[trigger] row[j] == row[width - j - 1]
}

/// Whether every row has the width of the first and reads the same backwards.
pub open spec fn spec_is_symmetrical(pattern: Seq<Vec<char>>) -> bool {
    let width = if pattern.len() > 0 { pattern[0]@.len() } else { 0 };
    forall|r: int| 0 <= r < pattern.len() ==> #[trigger] pattern[r]@.len() == width && reads_back(pattern[r]@, width as int)
}

/// Whether the first `width` characters of the row read the same backwards.
fn reads_same_backwards(row: &Vec<char>, width: usize) -> (r: bool)
    requires
        width <= row@.len(),
    ensures
        r == reads_back(row@, width as int),
{
    let mut j: usize = 0;
    while j < width / 2
        invariant
            j <= width / 2,
            width <= row@.len(),
            forall|i: int| 0 <= i < j ==> #[trigger] row@[i] == row@[width - i - 1],
        decreases width / 2 - j,
    {
        if row[j] != row[width - j - 1] {
            return false;
        }
        j = j + 1;
    }
    true
}

/// Whether the pattern reads the same mirrored left to right.
pub fn is_symmetrical_horizontally(pattern: &Vec<Vec<char>>) -> (r: bool)
    ensures
        r == spec_is_symmetrical(pattern@),
{
    let width: usize = if pattern.len() > 0 { pattern[0].len() } else { 0 };
    let mut r: usize = 0;
    while r < pattern.len()
        invariant
            r <= pattern@.len(),
            width == (if pattern@.len() > 0 { pattern@[0]@.len() } else { 0 }),
            forall|k: int| 0 <= k < r ==> #[trigger] pattern@[k]@.len() == width && reads_back(pattern@[k]@, width as int),
        decreases pattern.len() - r,
    {
        if pattern[r].len() != width {
            return false;
        }
        if !reads_same_backwards(&pattern[r], width) {
            return false;
        }
        assert(pattern@[r as int]@.len() == width && reads_back(pattern@[r as int]@, width as int));
        r = r + 1;
    }
    true
}

/// A crafting grid: `width` by `height` slots, row by row.
#[derive(Clone, Debug)]
pub struct CraftingGrid {
    pub width: usize,
    pub height: usize,
    pub stacks: Vec<ItemStack>,
}

impl RecipeInputInventory for CraftingGrid {
    fn get_width(&self) -> (r: usize)
        ensures
            r == self.width,
    {
        self.width
    }

    fn get_height(&self) -> (r: usize)
        ensures
            r == self.height,
    {
        self.height
    }
}

impl CraftingGrid {
    /// A square grid with a slot for every place. Rows are found by the
    /// height, so only square grids are read consistently.
    pub open spec fn wf(&self) -> bool {
        self@.wf()
    }
}

/// What a crafting grid holds: its size and its stacks, row by row.
pub ghost struct GridView {
    pub width: usize,
    pub height: usize,
    pub stacks: Seq<ItemStack>,
}

impl GridView {
    /// A square grid with a slot for every place.
    pub open spec fn wf(&self) -> bool {
        &&& self.width == self.height
        &&& self.stacks.len() == self.width * self.height
    }
}

impl View for CraftingGrid {
    type V = GridView;

    open spec fn view(&self) -> GridView {
        GridView { width: self.width, height: self.height, stacks: self.stacks@ }
    }
}

/// The index of the first key entry for `c`, or -1.
pub open spec fn key_index(key: Seq<(char, Ingredient)>, c: char) -> int
    decreases key.len(),
{
    if key.len() == 0 {
        -1
    } else if key.last().0 == c && key_index(key.drop_last(), c) < 0 {
        key.len() - 1
    } else {
        key_index(key.drop_last(), c)
    }
}

proof fn lemma_key_index(key: Seq<(char, Ingredient)>, c: char)
    ensures
        -1 <= key_index(key, c) < key.len(),
        key_index(key, c) >= 0 ==> key[key_index(key, c)].0 == c,
        forall|j: int| 0 <= j < key.len() && (key_index(key, c) < 0 || j < key_index(key, c))
            ==> #[trigger] key[j].0 != c,
    decreases key.len(),
{
    if key.len() > 0 {
        lemma_key_index(key.drop_last(), c);
        assert forall|j: int| 0 <= j < key.len() - 1 implies key.drop_last()[j] == key[j] by {}
    }
}

/// The ingredient the key gives `c`: that of its first entry.
fn find_key(key: &Vec<(char, Ingredient)>, c: char) -> (r: &Ingredient)
    requires
        key_index(key@, c) >= 0,
    ensures
        *r == key@[key_index(key@, c)].1,
{
    proof {
        lemma_key_index(key@, c);
    }
    let mut i: usize = 0;
    while i < key.len()
        invariant
            i <= key@.len(),
            0 <= key_index(key@, c) < key@.len(),
            key@[key_index(key@, c)].0 == c,
            forall|j: int| 0 <= j < key_index(key@, c) ==> #[trigger] key@[j].0 != c,
            forall|j: int| 0 <= j < i ==> #[trigger] key@[j].0 != c,
        decreases key.len() - i,
    {
        if key[i].0 == c {
            return &key[i].1;
        }
        i = i + 1;
    }
    &key[0].1
}

/// Whether a pattern character accepts a stack: a space wants nothing there,
/// any other character an item its ingredient accepts.
pub open spec fn cell_accepts(key: Seq<(char, Ingredient)>, c: char, s: ItemStack) -> bool {
    if c == ' ' {
        spec_is_empty(s)
    } else {
        key[key_index(key, c)].1.items@.contains(s.item)
    }
}

/// The grid index that pattern place (`x`, `y`) covers, the pattern's top
/// left corner at (`top_x`, `top_y`); a mirrored pattern runs right to left
/// over its `input_width` columns. Rows are `stride` slots apart.
pub open spec fn cell_index(stride: int, top_x: int, top_y: int, input_width: int, mirrored: bool, x: int, y: int) -> int {
    (y + top_y) * stride + if mirrored {
        top_x + input_width - 1 - x
    } else {
        x + top_x
    }
}

/// Whether every place of the pattern accepts the stack it covers.
pub open spec fn shaped_pass(
    key: Seq<(char, Ingredient)>,
    pattern: Seq<Vec<char>>,
    grid: GridView,
    top_x: int,
    top_y: int,
    input_width: int,
    mirrored: bool,
) -> bool {
    forall|y: int, x: int|
        0 <= y < pattern.len() && 0 <= x < pattern[y]@.len() ==> cell_accepts(
            key,
            #[trigger] pattern[y]@[x],
            grid.stacks[cell_index(grid.height as int, top_x, top_y, input_width, mirrored, x, y)],
        )
}

/// Whether every character of the pattern but spaces has a key.
pub open spec fn keys_cover(key: Seq<(char, Ingredient)>, pattern: Seq<Vec<char>>) -> bool {
    forall|y: int, x: int|
        0 <= y < pattern.len() && 0 <= x < pattern[y]@.len() && #[trigger] pattern[y]@[x] != ' '
            ==> key_index(key, pattern[y]@[x]) >= 0
}

proof fn lemma_cell_in_grid(a: int, b: int, h: int)
    by (nonlinear_arith)
    requires
        0 <= a < h,
        0 <= b < h,
    ensures
        0 <= a * h + b < h * h,
{
}

/// Whether every place of row `y` accepts the stack it covers.
fn row_pass(
    key: &Vec<(char, Ingredient)>,
    row: &Vec<char>,
    y: usize,
    grid: &CraftingGrid,
    top_x: usize,
    top_y: usize,
    input_width: usize,
    mirrored: bool,
) -> (r: bool)
    requires
        grid.wf(),
        row@.len() <= input_width,
        1 <= input_width,
        top_x + input_width <= grid.width,
        y + top_y < grid.height,
        forall|x: int| 0 <= x < row@.len() && #[trigger] row@[x] != ' ' ==> key_index(key@, row@[x]) >= 0,
    ensures
        r == forall|x: int| 0 <= x < row@.len() ==> cell_accepts(
            key@,
            #[trigger] row@[x],
            grid.stacks@[cell_index(grid.height as int, top_x as int, top_y as int, input_width as int, mirrored, x, y as int)],
        ),
{
    let size = grid.stacks.len();
    let mut x: usize = 0;
    while x < row.len()
        invariant
            grid.wf(),
            size == grid.stacks@.len(),
            row@.len() <= input_width,
            1 <= input_width,
            top_x + input_width <= grid.width,
            y + top_y < grid.height,
            forall|i: int| 0 <= i < row@.len() && #[trigger] row@[i] != ' ' ==> key_index(key@, row@[i]) >= 0,
            x <= row@.len(),
            forall|i: int| 0 <= i < x ==> cell_accepts(
                key@,
                #[trigger] row@[i],
                grid.stacks@[cell_index(grid.height as int, top_x as int, top_y as int, input_width as int, mirrored, i, y as int)],
            ),
        decreases row.len() - x,
    {
        let column: usize = if mirrored { top_x + input_width - 1 - x } else { x + top_x };
        proof {
            lemma_cell_in_grid((y + top_y) as int, column as int, grid.height as int);
        }
        let index: usize = (y + top_y) * grid.get_height() + column;
        let c = row[x];
        if c == ' ' {
            if !grid.stacks[index].is_empty() {
                return false;
            }
        } else {
            let ingredient = find_key(key, c);
            if !ingredient.match_item(grid.stacks[index].item) {
                return false;
            }
        }
        x = x + 1;
    }
    true
}

/// Whether every place of the pattern accepts the stack it covers.
fn pattern_pass(
    key: &Vec<(char, Ingredient)>,
    pattern: &Vec<Vec<char>>,
    grid: &CraftingGrid,
    top_x: usize,
    top_y: usize,
    input_width: usize,
    mirrored: bool,
) -> (r: bool)
    requires
        grid.wf(),
        1 <= input_width,
        top_x + input_width <= grid.width,
        top_y + pattern@.len() <= grid.height,
        forall|y: int| 0 <= y < pattern@.len() ==> #[trigger] pattern@[y]@.len() <= input_width,
        keys_cover(key@, pattern@),
    ensures
        r == shaped_pass(key@, pattern@, grid@, top_x as int, top_y as int, input_width as int, mirrored),
{
    let mut y: usize = 0;
    while y < pattern.len()
        invariant
            grid.wf(),
            1 <= input_width,
            top_x + input_width <= grid.width,
            top_y + pattern@.len() <= grid.height,
            forall|k: int| 0 <= k < pattern@.len() ==> #[trigger] pattern@[k]@.len() <= input_width,
            keys_cover(key@, pattern@),
            y <= pattern@.len(),
            forall|k: int, x: int|
                0 <= k < y && 0 <= x < pattern@[k]@.len() ==> cell_accepts(
                    key@,
                    #[trigger] pattern@[k]@[x],
                    grid.stacks@[cell_index(grid.height as int, top_x as int, top_y as int, input_width as int, mirrored, x, k)],
                ),
        decreases pattern.len() - y,
    {
        let row = &pattern[y];
        assert(row@.len() <= input_width);
        assert forall|x: int| 0 <= x < row@.len() && #[trigger] row@[x] != ' ' implies key_index(key@, row@[x]) >= 0 by {
            assert(pattern@[y as int]@[x] == row@[x]);
        }
        let ok = row_pass(key, row, y, grid, top_x, top_y, input_width, mirrored);
        if !ok {
            return false;
        }
        y = y + 1;
    }
    true
}

/// The number of characters of the row that are not spaces.
pub open spec fn row_count(row: Seq<char>) -> nat
    decreases row.len(),
{
    if row.len() == 0 {
        0
    } else {
        row_count(row.drop_last()) + if row.last() != ' ' {
            1nat
        } else {
            0nat
        }
    }
}

/// The number of characters of the pattern that are not spaces.
pub open spec fn pattern_count(pattern: Seq<Vec<char>>) -> nat
    decreases pattern.len(),
{
    if pattern.len() == 0 {
        0
    } else {
        pattern_count(pattern.drop_last()) + row_count(pattern.last()@)
    }
}

proof fn lemma_row_count_bound(row: Seq<char>)
    ensures
        row_count(row) <= row.len(),
    decreases row.len(),
{
    if row.len() > 0 {
        lemma_row_count_bound(row.drop_last());
    }
}

proof fn lemma_pattern_count_prefix(pattern: Seq<Vec<char>>, k: int)
    requires
        0 <= k <= pattern.len(),
    ensures
        pattern_count(pattern.take(k)) <= pattern_count(pattern),
    decreases pattern.len(),
{
    if k < pattern.len() {
        assert(pattern.drop_last().take(k) =~= pattern.take(k));
        lemma_pattern_count_prefix(pattern.drop_last(), k);
    } else {
        assert(pattern.take(k) =~= pattern);
    }
}

/// The number of characters of the row that are not spaces.
fn count_row(row: &Vec<char>) -> (r: usize)
    ensures
        r == row_count(row@),
{
    let mut n: usize = 0;
    let mut x: usize = 0;
    while x < row.len()
        invariant
            x <= row@.len(),
            n == row_count(row@.take(x as int)),
            n <= x,
        decreases row.len() - x,
    {
        assert(row@.take(x + 1).drop_last() =~= row@.take(x as int));
        if row[x] != ' ' {
            n = n + 1;
        }
        x = x + 1;
    }
    assert(row@.take(x as int) =~= row@);
    n
}

/// Whether the pattern has exactly `count` characters that are not spaces.
fn pattern_has_count(pattern: &Vec<Vec<char>>, count: usize) -> (r: bool)
    ensures
        r == (pattern_count(pattern@) == count),
{
    let mut total: usize = 0;
    let mut y: usize = 0;
    while y < pattern.len()
        invariant
            y <= pattern@.len(),
            total == pattern_count(pattern@.take(y as int)),
        decreases pattern.len() - y,
    {
        assert(pattern@.take(y + 1).drop_last() =~= pattern@.take(y as int));
        let n = count_row(&pattern[y]);
        match total.checked_add(n) {
            Some(t) => {
                total = t;
            },
            None => {
                proof {
                    lemma_pattern_count_prefix(pattern@, y + 1);
                }
                return false;
            },
        }
        y = y + 1;
    }
    assert(pattern@.take(y as int) =~= pattern@);
    total == count
}

/// The first ingredient from `from` on that is unused and accepts the item,
/// or -1.
pub open spec fn first_unused(ingredients: Seq<Ingredient>, used: Seq<bool>, item: u16, from: int) -> int
    decreases ingredients.len() - from,
{
    if from < 0 || from >= ingredients.len() {
        -1
    } else if !used[from] && ingredients[from].items@.contains(item) {
        from
    } else {
        first_unused(ingredients, used, item, from + 1)
    }
}

/// Whether the stacks can be given ingredients one by one, each stack that is
/// not empty taking the first unused ingredient that accepts it.
pub open spec fn greedy_fits(stacks: Seq<ItemStack>, ingredients: Seq<Ingredient>, used: Seq<bool>) -> bool
    decreases stacks.len(),
{
    if stacks.len() == 0 {
        true
    } else if spec_is_empty(stacks[0]) {
        greedy_fits(stacks.drop_first(), ingredients, used)
    } else {
        let j = first_unused(ingredients, used, stacks[0].item, 0);
        j >= 0 && greedy_fits(stacks.drop_first(), ingredients, used.update(j, true))
    }
}

proof fn lemma_first_unused_range(ingredients: Seq<Ingredient>, used: Seq<bool>, item: u16, from: int)
    requires
        0 <= from,
    ensures
        first_unused(ingredients, used, item, from) == -1 || from <= first_unused(ingredients, used, item, from)
            < ingredients.len(),
    decreases ingredients.len() - from,
{
    if from < ingredients.len() {
        lemma_first_unused_range(ingredients, used, item, from + 1);
    }
}

/// The first unused ingredient that accepts the item.
fn find_unused(ingredients: &Vec<Ingredient>, used: &Vec<bool>, item: u16) -> (r: Option<usize>)
    requires
        used@.len() == ingredients@.len(),
    ensures
        match r {
            Some(j) => j == first_unused(ingredients@, used@, item, 0) && j < ingredients@.len(),
            None => first_unused(ingredients@, used@, item, 0) == -1,
        },
{
    let mut j: usize = 0;
    while j < ingredients.len()
        invariant
            used@.len() == ingredients@.len(),
            j <= ingredients@.len(),
            first_unused(ingredients@, used@, item, 0) == first_unused(ingredients@, used@, item, j as int),
        decreases ingredients.len() - j,
    {
        if !used[j] && ingredients[j].match_item(item) {
            return Some(j);
        }
        j = j + 1;
    }
    None
}

/// Whether the grid's stacks fit the ingredients, each taking the first
/// unused one that accepts it.
fn shapeless_fits(grid: &CraftingGrid, ingredients: &Vec<Ingredient>) -> (r: bool)
    ensures
        r == greedy_fits(grid.stacks@, ingredients@, Seq::new(ingredients@.len(), |i: int| false)),
{
    let mut used: Vec<bool> = Vec::new();
    while used.len() < ingredients.len()
        invariant
            used@.len() <= ingredients@.len(),
            used@ == Seq::new(used@.len(), |i: int| false),
        decreases ingredients.len() - used.len(),
    {
        used.push(false);
        assert(used@ =~= Seq::new(used@.len(), |i: int| false));
    }
    let ghost start = used@;
    assert(grid.stacks@.subrange(0, grid.stacks@.len() as int) =~= grid.stacks@);
    let mut i: usize = 0;
    while i < grid.stacks.len()
        invariant
            used@.len() == ingredients@.len(),
            start == Seq::new(ingredients@.len(), |k: int| false),
            i <= grid.stacks@.len(),
            greedy_fits(grid.stacks@.subrange(i as int, grid.stacks@.len() as int), ingredients@, used@)
                == greedy_fits(grid.stacks@, ingredients@, start),
        decreases grid.stacks.len() - i,
    {
        let ghost rest = grid.stacks@.subrange(i as int, grid.stacks@.len() as int);
        assert(rest.drop_first() =~= grid.stacks@.subrange(i + 1, grid.stacks@.len() as int));
        assert(rest[0] == grid.stacks@[i as int]);
        let stack = grid.stacks[i];
        if !stack.is_empty() {
            match find_unused(ingredients, &used, stack.item) {
                Some(j) => {
                    used.set(j, true);
                },
                None => {
                    return false;
                },
            }
        }
        i = i + 1;
    }
    assert(grid.stacks@.subrange(i as int, grid.stacks@.len() as int) =~= Seq::<ItemStack>::empty());
    true
}

/// Whether every stack that is not empty holds the input or the material.
pub open spec fn transmute_fits(stacks: Seq<ItemStack>, input: Ingredient, material: Ingredient) -> bool {
    forall|i: int|
        0 <= i < stacks.len() ==> spec_is_empty(#[trigger] stacks[i]) || material.items@.contains(stacks[i].item)
            || input.items@.contains(stacks[i].item)
}

fn transmute_check(grid: &CraftingGrid, input: &Ingredient, material: &Ingredient) -> (r: bool)
    ensures
        r == transmute_fits(grid.stacks@, *input, *material),
{
    let mut i: usize = 0;
    while i < grid.stacks.len()
        invariant
            i <= grid.stacks@.len(),
            forall|k: int|
                0 <= k < i ==> spec_is_empty(#[trigger] grid.stacks@[k]) || material.items@.contains(
                    grid.stacks@[k].item,
                ) || input.items@.contains(grid.stacks@[k].item),
        decreases grid.stacks.len() - i,
    {
        let stack = grid.stacks[i];
        if !stack.is_empty() && !material.match_item(stack.item) && !input.match_item(stack.item) {
            return false;
        }
        i = i + 1;
    }
    true
}

/// Whether a side of the pot holds one of its ingredients.
pub open spec fn pot_side(s: ItemStack, ingredients: Ingredient) -> bool {
    !spec_is_empty(s) && ingredients.items@.contains(s.item)
}

/// Whether the four places beside the centre of a 3 by 3 grid hold pot
/// ingredients.
pub open spec fn pot_sides_fit(stacks: Seq<ItemStack>, ingredients: Ingredient) -> bool {
    pot_side(stacks[1], ingredients) && pot_side(stacks[3], ingredients) && pot_side(stacks[5], ingredients)
        && pot_side(stacks[7], ingredients)
}

fn pot_check(inventory: &CraftingGrid, ingredients: &Ingredient) -> (r: bool)
    requires
        inventory.wf(),
        inventory.width == 3,
    ensures
        r == pot_sides_fit(inventory.stacks@, *ingredients),
{
    let mut position: usize = 1;
    while position <= 7
        invariant
            inventory.wf(),
            inventory.width == 3,
            position == 1 || position == 3 || position == 5 || position == 7 || position == 9,
            position > 1 ==> pot_side(inventory.stacks@[1], *ingredients),
            position > 3 ==> pot_side(inventory.stacks@[3], *ingredients),
            position > 5 ==> pot_side(inventory.stacks@[5], *ingredients),
            position > 7 ==> pot_side(inventory.stacks@[7], *ingredients),
        decreases 9 - position,
    {
        let stack = inventory.stacks[position];
        if stack.is_empty() || !ingredients.match_item(stack.item) {
            return false;
        }
        position = position + 2;
    }
    true
}

/// Whether a recipe can be matched against a grid: a shaped recipe has rows,
/// none wider than the first, and a key for every character but spaces.
pub open spec fn recipe_wf(recipe: CraftingRecipeTypes) -> bool {
    match recipe {
        CraftingRecipeTypes::CraftingShaped { key, pattern, .. } => {
            &&& pattern@.len() > 0
            &&& forall|y: int| 0 <= y < pattern@.len() ==> #[trigger] pattern@[y]@.len() <= pattern@[0]@.len()
            &&& keys_cover(key@, pattern@)
        },
        _ => true,
    }
}

/// What the recipe makes from the grid, if it matches: the filled part of
/// the grid is `input_width` by `input_height` from (`top_x`, `top_y`) and
/// holds `count` stacks.
pub open spec fn spec_recipe_matches(
    recipe: CraftingRecipeTypes,
    input_height: int,
    input_width: int,
    top_x: int,
    top_y: int,
    count: int,
    grid: GridView,
) -> Option<RecipeResultStruct> {
    match recipe {
        CraftingRecipeTypes::CraftingShaped { key, pattern, result } => {
            if pattern@.len() != input_height || pattern@[0]@.len() != input_width {
                None
            } else if count != pattern_count(pattern@) {
                None
            } else if shaped_pass(key@, pattern@, grid, top_x, top_y, input_width, false) || (
            !spec_is_symmetrical(pattern@) && shaped_pass(key@, pattern@, grid, top_x, top_y, input_width, true)) {
                Some(result)
            } else {
                None
            }
        },
        CraftingRecipeTypes::CraftingShapeless { ingredients, result } => {
            if count != ingredients@.len() {
                None
            } else if greedy_fits(grid.stacks, ingredients@, Seq::new(ingredients@.len(), |i: int| false)) {
                Some(result)
            } else {
                None
            }
        },
        CraftingRecipeTypes::CraftingTransmute { input, material, result } => {
            if count != 2 {
                None
            } else if transmute_fits(grid.stacks, input, material) {
                Some(result)
            } else {
                None
            }
        },
        CraftingRecipeTypes::CraftingDecoratedPot { ingredients, pot } => {
            if count != 4 || grid.width != 3 || grid.height != 3 {
                None
            } else if pot_sides_fit(grid.stacks, ingredients) {
                Some(pot)
            } else {
                None
            }
        },
        CraftingRecipeTypes::CraftingSpecial => None,
    }
}

/// What the recipe makes from the grid, if it matches. The filled part of the
/// grid is `input_width` by `input_height` from (`top_x`, `top_y`) and holds
/// `count` stacks. A shaped recipe matches as written or, when it is not
/// symmetrical, mirrored; a shapeless one gives each stack the first unused
/// ingredient that accepts it.
pub fn recipe_matches(
    recipe: &CraftingRecipeTypes,
    input_height: usize,
    input_width: usize,
    top_x: usize,
    top_y: usize,
    count: usize,
    inventory: &CraftingGrid,
) -> (r: Option<RecipeResultStruct>)
    requires
        inventory.wf(),
        recipe_wf(*recipe),
        1 <= input_width,
        top_x + input_width <= inventory.width,
        top_y + input_height <= inventory.height,
    ensures
        r == spec_recipe_matches(
            *recipe,
            input_height as int,
            input_width as int,
            top_x as int,
            top_y as int,
            count as int,
            inventory@,
        ),
{
    match recipe {
        CraftingRecipeTypes::CraftingShaped { key, pattern, result } => {
            if pattern.len() != input_height || pattern[0].len() != input_width {
                return None;
            }
            if !pattern_has_count(pattern, count) {
                return None;
            }
            assert forall|y: int| 0 <= y < pattern@.len() implies #[trigger] pattern@[y]@.len() <= input_width by {}
            let mut matched = pattern_pass(key, pattern, inventory, top_x, top_y, input_width, false);
            if !matched && !is_symmetrical_horizontally(pattern) {
                matched = pattern_pass(key, pattern, inventory, top_x, top_y, input_width, true);
            }
            if matched {
                Some(*result)
            } else {
                None
            }
        },
        CraftingRecipeTypes::CraftingShapeless { ingredients, result } => {
            if count != ingredients.len() {
                return None;
            }
            if shapeless_fits(inventory, ingredients) {
                Some(*result)
            } else {
                None
            }
        },
        CraftingRecipeTypes::CraftingTransmute { input, material, result } => {
            if count != 2 {
                return None;
            }
            if transmute_check(inventory, input, material) {
                Some(*result)
            } else {
                None
            }
        },
        CraftingRecipeTypes::CraftingDecoratedPot { ingredients, pot } => {
            if count != 4 || inventory.get_width() != 3 || inventory.get_height() != 3 {
                return None;
            }
            if pot_check(inventory, ingredients) {
                Some(*pot)
            } else {
                None
            }
        },
        CraftingRecipeTypes::CraftingSpecial => None,
    }
}

/// The filled part of a grid: how many stacks are not empty, and the corners
/// of the rectangle around them. The top corner starts at (9, 9).
#[derive(Clone, Copy, Debug, PartialEq, Eq, Structural)]
pub struct FilledArea {
    pub count: usize,
    pub top_x: usize,
    pub top_y: usize,
    pub bottom_x: usize,
    pub bottom_y: usize,
}

/// The filled part of the first `n` slots of a grid `width` slots wide.
pub open spec fn filled_area(stacks: Seq<ItemStack>, width: int, n: int) -> FilledArea
    decreases n,
{
    if n <= 0 {
        FilledArea { count: 0, top_x: 9, top_y: 9, bottom_x: 0, bottom_y: 0 }
    } else {
        let a = filled_area(stacks, width, n - 1);
        let x = (n - 1) % width;
        let y = (n - 1) / width;
        if spec_is_empty(stacks[n - 1]) {
            a
        } else {
            FilledArea {
                count: (a.count + 1) as usize,
                top_x: if x < a.top_x { x as usize } else { a.top_x },
                top_y: if y < a.top_y { y as usize } else { a.top_y },
                bottom_x: if x > a.bottom_x { x as usize } else { a.bottom_x },
                bottom_y: if y > a.bottom_y { y as usize } else { a.bottom_y },
            }
        }
    }
}

proof fn lemma_row_of_slot(i: int, w: int)
    by (nonlinear_arith)
    requires
        0 <= i < w * w,
        0 < w,
    ensures
        0 <= i % w < w,
        0 <= i / w < w,
{
}

/// The filled part of the grid.
fn find_filled_area(inventory: &CraftingGrid) -> (r: FilledArea)
    requires
        inventory.wf(),
        inventory.width > 0,
    ensures
        r == filled_area(inventory.stacks@, inventory.width as int, inventory.stacks@.len() as int),
        r.count > 0 ==> r.top_x <= r.bottom_x < inventory.width && r.top_y <= r.bottom_y < inventory.height,
        r.count <= inventory.stacks@.len(),
{
    let width = inventory.get_width();
    let mut area = FilledArea { count: 0, top_x: 9, top_y: 9, bottom_x: 0, bottom_y: 0 };
    let mut i: usize = 0;
    while i < inventory.stacks.len()
        invariant
            inventory.wf(),
            width == inventory.width,
            width > 0,
            i <= inventory.stacks@.len(),
            area == filled_area(inventory.stacks@, width as int, i as int),
            area.count <= i,
            area.count > 0 ==> area.top_x <= area.bottom_x < width && area.top_y <= area.bottom_y < width,
            area.count == 0 ==> area.top_x == 9 && area.top_y == 9 && area.bottom_x == 0 && area.bottom_y == 0,
        decreases inventory.stacks.len() - i,
    {
        proof {
            lemma_row_of_slot(i as int, width as int);
        }
        let x = i % width;
        let y = i / width;
        if !inventory.stacks[i].is_empty() {
            area = FilledArea {
                count: area.count + 1,
                top_x: if x < area.top_x { x } else { area.top_x },
                top_y: if y < area.top_y { y } else { area.top_y },
                bottom_x: if x > area.bottom_x { x } else { area.bottom_x },
                bottom_y: if y > area.bottom_y { y } else { area.bottom_y },
            };
        }
        i = i + 1;
    }
    area
}

/// What the recipe makes from the filled part `a` of the grid.
pub open spec fn area_result(recipe: CraftingRecipeTypes, a: FilledArea, grid: GridView) -> Option<RecipeResultStruct> {
    spec_recipe_matches(
        recipe,
        a.bottom_y + 1 - a.top_y,
        a.bottom_x + 1 - a.top_x,
        a.top_x as int,
        a.top_y as int,
        a.count as int,
        grid,
    )
}

/// The index of the first recipe from `from` on that the grid matches, or -1.
pub open spec fn first_matching(recipes: Seq<CraftingRecipeTypes>, a: FilledArea, grid: GridView, from: int) -> int
    decreases recipes.len() - from,
{
    if from < 0 || from >= recipes.len() {
        -1
    } else if area_result(recipes[from], a, grid) is Some {
        from
    } else {
        first_matching(recipes, a, grid, from + 1)
    }
}

proof fn lemma_first_matching(recipes: Seq<CraftingRecipeTypes>, a: FilledArea, grid: GridView, from: int)
    requires
        0 <= from,
    ensures
        first_matching(recipes, a, grid, from) == -1 || (from <= first_matching(recipes, a, grid, from)
            < recipes.len() && area_result(recipes[first_matching(recipes, a, grid, from)], a, grid) is Some),
    decreases recipes.len() - from,
{
    if from < recipes.len() {
        lemma_first_matching(recipes, a, grid, from + 1);
    }
}

/// The result and index of the recipe the grid makes, and the remembered
/// recipe afterwards: an empty grid makes nothing; the remembered recipe is
/// tried first; else the first recipe that matches is found and remembered.
pub open spec fn spec_match_recipe(
    grid: GridView,
    recipes: Seq<CraftingRecipeTypes>,
    cache: Option<usize>,
) -> (Option<(RecipeResultStruct, usize)>, Option<usize>) {
    let a = filled_area(grid.stacks, grid.width as int, grid.stacks.len() as int);
    if a.count == 0 {
        (None, cache)
    } else if cache matches Some(c) && c < recipes.len() && area_result(recipes[c as int], a, grid) is Some {
        (Some((area_result(recipes[cache->Some_0 as int], a, grid)->Some_0, cache->Some_0)), cache)
    } else {
        let j = first_matching(recipes, a, grid, 0);
        if j < 0 {
            (None, cache)
        } else {
            (Some((area_result(recipes[j], a, grid)->Some_0, j as usize)), Some(j as usize))
        }
    }
}

/// Finds what the grid makes: the result and the index of its recipe.
/// `recipe_cache` remembers the recipe last matched, which is tried first.
fn find_recipe(
    inventory: &CraftingGrid,
    recipes: &Vec<CraftingRecipeTypes>,
    recipe_cache: &mut Option<usize>,
) -> (r: Option<(RecipeResultStruct, usize)>)
    requires
        inventory.wf(),
        inventory.width > 0,
        forall|i: int| 0 <= i < recipes@.len() ==> recipe_wf(#[trigger] recipes@[i]),
    ensures
        (r, *final(recipe_cache)) == spec_match_recipe(inventory@, recipes@, *old(recipe_cache)),
{
    let area = find_filled_area(inventory);
    if area.count == 0 {
        return None;
    }
    let input_width = area.bottom_x + 1 - area.top_x;
    let input_height = area.bottom_y + 1 - area.top_y;
    if let Some(cached) = *recipe_cache {
        if cached < recipes.len() {
            if let Some(result) = recipe_matches(
                &recipes[cached],
                input_height,
                input_width,
                area.top_x,
                area.top_y,
                area.count,
                inventory,
            ) {
                return Some((result, cached));
            }
        }
    }
    let mut i: usize = 0;
    while i < recipes.len()
        invariant
            inventory.wf(),
            inventory.width > 0,
            forall|k: int| 0 <= k < recipes@.len() ==> recipe_wf(#[trigger] recipes@[k]),
            area == filled_area(inventory.stacks@, inventory.width as int, inventory.stacks@.len() as int),
            area.count > 0,
            area.top_x <= area.bottom_x < inventory.width,
            area.top_y <= area.bottom_y < inventory.height,
            input_width == area.bottom_x + 1 - area.top_x,
            input_height == area.bottom_y + 1 - area.top_y,
            i <= recipes@.len(),
            first_matching(recipes@, area, inventory@, 0) == first_matching(recipes@, area, inventory@, i as int),
            *recipe_cache == *old(recipe_cache),
            !(*old(recipe_cache) matches Some(c) && c < recipes@.len() && area_result(
                recipes@[c as int],
                area,
                inventory@,
            ) is Some),
        decreases recipes.len() - i,
    {
        if let Some(result) = recipe_matches(
            &recipes[i],
            input_height,
            input_width,
            area.top_x,
            area.top_y,
            area.count,
            inventory,
        ) {
            *recipe_cache = Some(i);
            return Some((result, i));
        }
        i = i + 1;
    }
    None
}

/// Where shift-clicking moves a stack in the crafting table's window: the
/// result and the grid (slots 0 to 9) go to the player's slots 10 to 45, the
/// result's from the last; a player's stack goes to the grid, else from the
/// main inventory (10 to 36) to the hotbar (37 to 45) or back. The stacks
/// after the moves, what is left of the stack and whether anything moved.
pub open spec fn crafting_quick_move_insert(v: ScreenView, slot: int, s: ItemStack) -> (Seq<ItemStack>, ItemStack, bool) {
    if slot == 0 {
        insert_item_effect(v.stacks, v.rules, s, 10, 46, true)
    } else if 1 <= slot <= 9 {
        insert_item_effect(v.stacks, v.rules, s, 10, 46, false)
    } else if 10 <= slot < 46 {
        let (a, left, ok) = insert_item_effect(v.stacks, v.rules, s, 1, 10, false);
        if ok {
            (a, left, ok)
        } else if slot < 37 {
            insert_item_effect(v.stacks, v.rules, s, 37, 46, false)
        } else {
            insert_item_effect(v.stacks, v.rules, s, 10, 37, false)
        }
    } else {
        insert_item_effect(v.stacks, v.rules, s, 10, 46, false)
    }
}

/// Shift-clicking slot `slot` of the crafting table's window: the stacks
/// after, the stack taken from the slot (empty when nothing moved) and what is
/// dropped (a result's leftover).
pub open spec fn crafting_quick_move_effect(v: ScreenView, slot: int) -> (ScreenView, ItemStack, Seq<ItemStack>) {
    let src = v.rules[slot].stack_index as int;
    let s = v.stacks[src];
    if spec_is_empty(s) {
        (v, empty_stack(), Seq::empty())
    } else {
        let (st2, left, ok) = crafting_quick_move_insert(v, slot, s);
        if !ok {
            (v, empty_stack(), Seq::empty())
        } else {
            let st3 = st2.update(src, if spec_is_empty(left) { empty_stack() } else { left });
            if left.item_count == s.item_count {
                (with_stacks(v, st3), empty_stack(), Seq::empty())
            } else {
                (
                    if v.rules[slot].kind is Result { take_result(with_stacks(v, st3)) } else { with_stacks(v, st3) },
                    s,
                    if slot == 0 && !spec_is_empty(left) { seq![left] } else { Seq::empty() },
                )
            }
        }
    }
}

/// What shift-clicking in a crafting table's window leaves in the clicked
/// slot: its stack, the empty stack or fewer items of its kind; a reported move
/// took items out of the slot.
pub proof fn lemma_crafting_quick_move_facts(v: ScreenView, slot: int)
    requires
        player_layout(v.rules),
        0 <= slot < 46,
        forall|i: int| 0 <= i < v.rules.len() ==> #[trigger] v.rules[i].stack_index < v.stacks.len(),
    ensures
        ({
            let src = v.rules[slot].stack_index as int;
            let s = v.stacks[src];
            let (v2, moved, _) = crafting_quick_move_effect(v, slot);
            let st = v2.stacks;
            &&& v2 == (ScreenView { stacks: v2.stacks, recipe_cache: v2.recipe_cache, ..v })
            &&& st.len() == v.stacks.len()
            &&& !(v.rules[slot].kind is Result) ==> st[src] == s || st[src] == empty_stack() || st[src] == with_count(s, st[src].item_count)
            &&& !(v.rules[slot].kind is Result) ==> (!spec_is_empty(moved) ==> moved == s && (st[src].item_count
                < s.item_count || !same_kind(st[src], moved)))
            &&& !spec_is_empty(moved) ==> moved == s
        }),
{
    let src = v.rules[slot].stack_index as int;
    let s = v.stacks[src];
    if !spec_is_empty(s) {
        super::screen::lemma_insert_item_shrinks(v.stacks, v.rules, s, 10, 46, true);
        super::screen::lemma_insert_item_len(v.stacks, v.rules, s, 10, 46, true);
        super::screen::lemma_insert_item_shrinks(v.stacks, v.rules, s, 10, 46, false);
        super::screen::lemma_insert_item_len(v.stacks, v.rules, s, 10, 46, false);
        super::screen::lemma_insert_item_shrinks(v.stacks, v.rules, s, 1, 10, false);
        super::screen::lemma_insert_item_len(v.stacks, v.rules, s, 1, 10, false);
        super::screen::lemma_insert_item_shrinks(v.stacks, v.rules, s, 37, 46, false);
        super::screen::lemma_insert_item_len(v.stacks, v.rules, s, 37, 46, false);
        super::screen::lemma_insert_item_shrinks(v.stacks, v.rules, s, 10, 37, false);
        super::screen::lemma_insert_item_len(v.stacks, v.rules, s, 10, 37, false);
        let (st2, left, ok) = crafting_quick_move_insert(v, slot, s);
        if ok {
            let st3 = st2.update(src, if spec_is_empty(left) { empty_stack() } else { left });
            assert(st3[src] == (if spec_is_empty(left) { empty_stack() } else { left }));
        }
    }
}

impl ScreenState {
    /// Shift-clicks slot `slot` of a crafting table's window (the result, the
    /// 3 by 3 grid, then the player's 36 slots); see
    /// `crafting_quick_move_effect`.
    pub fn crafting_table_quick_move(&mut self, slot: usize) -> (r: (ItemStack, Vec<ItemStack>))
        requires
            old(self).wf(),
            player_layout(old(self).slots@),
            slot < 46,
            slot_placed(old(self).view(), slot as int),
        ensures
            final(self).kind == old(self).kind,
            final(self).recipes@ == old(self).recipes@,
            final(self).revision == old(self).revision,
            final(self).wf(),
            final(self).slots@ == old(self).slots@,
            final(self).own@.len() == old(self).own@.len(),
            final(self).player.selected_slot == old(self).player.selected_slot,
            final(self).drag_slots@ == old(self).drag_slots@,
            final(self).cursor == old(self).cursor,
            (final(self).view(), r.0, r.1@) == crafting_quick_move_effect(old(self).view(), slot as int),
    {
        let mut drops: Vec<ItemStack> = Vec::new();
        let s = self.get_stack(slot);
        if s.is_empty() {
            return (ItemStack::empty(), drops);
        }
        let ghost v0 = self.view();
        let mut moving = s;
        let ok: bool = if slot == 0 {
            proof {
                super::screen::lemma_insert_item_unchanged(v0.stacks, v0.rules, s, 10, 46, true);
            }
            self.insert_item(&mut moving, 10, 46, true)
        } else if slot <= 9 {
            proof {
                super::screen::lemma_insert_item_unchanged(v0.stacks, v0.rules, s, 10, 46, false);
            }
            self.insert_item(&mut moving, 10, 46, false)
        } else {
            proof {
                super::screen::lemma_insert_item_unchanged(v0.stacks, v0.rules, s, 1, 10, false);
                super::screen::lemma_insert_item_unchanged(v0.stacks, v0.rules, s, 37, 46, false);
                super::screen::lemma_insert_item_unchanged(v0.stacks, v0.rules, s, 10, 37, false);
            }
            if self.insert_item(&mut moving, 1, 10, false) {
                true
            } else if slot < 37 {
                self.insert_item(&mut moving, 37, 46, false)
            } else {
                self.insert_item(&mut moving, 10, 37, false)
            }
        };
        assert((self.stacks(), moving, ok) == crafting_quick_move_insert(v0, slot as int, s));
        if !ok {
            return (ItemStack::empty(), drops);
        }
        if moving.is_empty() {
            self.set_stack(slot, ItemStack::empty());
        } else {
            self.set_stack(slot, moving);
        }
        if moving.item_count == s.item_count {
            return (ItemStack::empty(), drops);
        }
        if self.slots[slot].kind == SlotKind::Result {
            self.take_result();
        }
        if slot == 0 && !moving.is_empty() {
            drops.push(moving);
        }
        proof {
            assert(drops@ =~= (if slot == 0 && !spec_is_empty(moving) { seq![moving] } else { Seq::<ItemStack>::empty() }));
        }
        (s, drops)
    }
}

/// The smallest count among the stacks of the first `n` slots that are not
/// empty, or 255.
pub open spec fn min_filled_count(stacks: Seq<ItemStack>, n: int) -> u8
    decreases n,
{
    if n <= 0 {
        255
    } else if spec_is_empty(stacks[n - 1]) {
        min_filled_count(stacks, n - 1)
    } else {
        min_u8(min_filled_count(stacks, n - 1), stacks[n - 1].item_count)
    }
}

/// A stack after one of its items is used: empty stacks stay as they are.
pub open spec fn use_one(s: ItemStack) -> ItemStack {
    if spec_is_empty(s) {
        s
    } else {
        with_count(s, (s.item_count - 1) as u8)
    }
}

/// The crafting result slot: the grid it reads, its id in the window, the
/// stack it shows and the index of the recipe it last matched.
pub struct ResultSlot {
    pub inventory: CraftingGrid,
    pub id: u8,
    pub result: ItemStack,
    pub recipe_cache: Option<usize>,
}

impl ResultSlot {
    /// A result slot over the grid, showing nothing.
    pub fn new(inventory: CraftingGrid) -> (r: Self)
        ensures
            r.inventory == inventory,
            r.id == 0,
            r.result == empty_stack(),
            r.recipe_cache is None,
    {
        ResultSlot { inventory, id: 0, result: ItemStack::empty(), recipe_cache: None }
    }

    /// What the grid makes, and the index of the recipe; see
    /// `spec_match_recipe`.
    pub fn match_recipe(&mut self, recipes: &Vec<CraftingRecipeTypes>) -> (r: Option<(RecipeResultStruct, usize)>)
        requires
            old(self).inventory.wf(),
            old(self).inventory.width > 0,
            forall|i: int| 0 <= i < recipes@.len() ==> recipe_wf(#[trigger] recipes@[i]),
        ensures
            (r, final(self).recipe_cache) == spec_match_recipe(old(self).inventory@, recipes@, old(self).recipe_cache),
            final(self).inventory == old(self).inventory,
            final(self).id == old(self).id,
            final(self).result == old(self).result,
    {
        find_recipe(&self.inventory, recipes, &mut self.recipe_cache)
    }

    /// Shows what the grid makes, or nothing, and returns it.
    pub fn refill_output(&mut self, recipes: &Vec<CraftingRecipeTypes>) -> (r: ItemStack)
        requires
            old(self).inventory.wf(),
            old(self).inventory.width > 0,
            forall|i: int| 0 <= i < recipes@.len() ==> recipe_wf(#[trigger] recipes@[i]),
        ensures
            final(self).result == r,
            r == match spec_match_recipe(old(self).inventory@, recipes@, old(self).recipe_cache).0 {
                Some((made, _)) => result_stack(made),
                None => empty_stack(),
            },
            final(self).recipe_cache == spec_match_recipe(old(self).inventory@, recipes@, old(self).recipe_cache).1,
            final(self).inventory == old(self).inventory,
            final(self).id == old(self).id,
    {
        let result = match self.match_recipe(recipes) {
            Some((made, _)) => made.to_stack(),
            None => ItemStack::empty(),
        };
        self.result = result;
        result
    }

    /// A slot of the window changed: a change in the result or the grid
    /// (slots 0 to width times height) refills the result, which is returned to
    /// be sent as slot 0 with the window's next revision.
    pub fn on_slot_update(&mut self, slot: u8, recipes: &Vec<CraftingRecipeTypes>) -> (r: Option<ItemStack>)
        requires
            old(self).inventory.wf(),
            old(self).inventory.width > 0,
            forall|i: int| 0 <= i < recipes@.len() ==> recipe_wf(#[trigger] recipes@[i]),
        ensures
            slot > old(self).inventory.width * old(self).inventory.height ==> r is None && *final(self) == *old(self),
            slot <= old(self).inventory.width * old(self).inventory.height ==> {
                &&& r == Some(final(self).result)
                &&& final(self).result == match spec_match_recipe(old(self).inventory@, recipes@, old(self).recipe_cache).0 {
                    Some((made, _)) => result_stack(made),
                    None => empty_stack(),
                }
                &&& final(self).recipe_cache == spec_match_recipe(old(self).inventory@, recipes@, old(self).recipe_cache).1
                &&& final(self).inventory == old(self).inventory
                &&& final(self).id == old(self).id
            },
    {
        let size = self.inventory.stacks.len();
        if (slot as usize) <= size {
            Some(self.refill_output(recipes))
        } else {
            None
        }
    }

    /// The slot belongs to no inventory.
    pub fn get_index(&self) -> (r: usize)
        ensures
            r == 999,
    {
        999
    }

    pub fn set_id(&mut self, id: usize)
        ensures
            final(self).id == id as u8,
            final(self).inventory == old(self).inventory,
            final(self).result == old(self).result,
            final(self).recipe_cache == old(self).recipe_cache,
    {
        self.id = id as u8;
    }

    /// Nothing can be put in the result slot.
    pub fn can_insert(&self, _stack: &ItemStack) -> (r: bool)
        ensures
            !r,
    {
        false
    }

    pub fn has_stack(&self) -> (r: bool)
        ensures
            r == !spec_is_empty(self.result),
    {
        !self.result.is_empty()
    }

    /// Taking from the result takes all of it, whatever the amount.
    pub fn take_stack(&self, _amount: u8) -> (r: ItemStack)
        ensures
            r == if spec_is_empty(self.result) {
                empty_stack()
            } else {
                self.result
            },
    {
        if self.has_stack() {
            self.result
        } else {
            ItemStack::empty()
        }
    }

    /// How many times the result can be taken: the smallest count in the
    /// grid, or 255.
    pub fn get_max_item_count(&self) -> (r: u8)
        ensures
            r == min_filled_count(self.inventory.stacks@, self.inventory.stacks@.len() as int),
    {
        let mut count: u8 = 255;
        let mut i: usize = 0;
        while i < self.inventory.stacks.len()
            invariant
                i <= self.inventory.stacks@.len(),
                count == min_filled_count(self.inventory.stacks@, i as int),
            decreases self.inventory.stacks.len() - i,
        {
            let stack = self.inventory.stacks[i];
            if !stack.is_empty() {
                count = if stack.item_count < count { stack.item_count } else { count };
            }
            i = i + 1;
        }
        count
    }

    /// Taking the result uses one item of every stack in the grid.
    pub fn on_take_item(&mut self)
        ensures
            final(self).inventory.stacks@ == old(self).inventory.stacks@.map_values(|s: ItemStack| use_one(s)),
            final(self).inventory.width == old(self).inventory.width,
            final(self).inventory.height == old(self).inventory.height,
            final(self).result == old(self).result,
            final(self).recipe_cache == old(self).recipe_cache,
            final(self).id == old(self).id,
    {
        let mut i: usize = 0;
        while i < self.inventory.stacks.len()
            invariant
                i <= self.inventory.stacks@.len(),
                self.inventory.stacks@.len() == old(self).inventory.stacks@.len(),
                self.inventory.width == old(self).inventory.width,
                self.inventory.height == old(self).inventory.height,
                self.result == old(self).result,
                self.recipe_cache == old(self).recipe_cache,
                self.id == old(self).id,
                forall|k: int| 0 <= k < i ==> #[trigger] self.inventory.stacks@[k] == use_one(old(self).inventory.stacks@[k]),
                forall|k: int| i <= k < self.inventory.stacks@.len() ==> #[trigger] self.inventory.stacks@[k]
                    == old(self).inventory.stacks@[k],
            decreases self.inventory.stacks.len() - i,
        {
            let stack = self.inventory.stacks[i];
            if !stack.is_empty() {
                let mut used = stack;
                used.item_count = stack.item_count - 1;
                self.inventory.stacks.set(i, used);
            }
            i = i + 1;
        }
        assert(self.inventory.stacks@ =~= old(self).inventory.stacks@.map_values(|s: ItemStack| use_one(s)));
    }
}

/// A window's crafting grid, as the recipes read it.
pub open spec fn window_grid(kind: ScreenKind, stacks: Seq<ItemStack>) -> GridView {
    GridView { width: grid_side(kind), height: grid_side(kind), stacks: grid_stacks(kind, stacks) }
}

/// What a result slot shows for the grid, and the recipe it remembers then:
/// what the remembered recipe makes while the grid still matches it, else what
/// the first recipe the grid matches makes (that recipe is remembered), else
/// nothing.
pub open spec fn refill(grid: GridView, recipes: Seq<CraftingRecipeTypes>, cache: Option<usize>) -> (ItemStack, Option<usize>) {
    let (m, c) = spec_match_recipe(grid, recipes, cache);
    (
        match m {
            Some((made, _)) => result_stack(made),
            None => empty_stack(),
        },
        c,
    )
}

/// The window's stacks after one item of every stack of its crafting grid is
/// used.
pub open spec fn use_grid(kind: ScreenKind, stacks: Seq<ItemStack>) -> Seq<ItemStack> {
    Seq::new(
        stacks.len(),
        |i: int|
            if 1 <= i < 1 + grid_len(kind) {
                use_one(stacks[i])
            } else {
                stacks[i]
            },
    )
}

/// Taking the crafting result, shown as the window's first stack: one item of
/// every grid stack is used, and the result slot is then refilled from the
/// grid; see `refill`.
pub open spec fn take_result(v: ScreenView) -> ScreenView {
    let used = use_grid(v.kind, v.stacks);
    let (r, c) = refill(window_grid(v.kind, used), v.recipes, v.recipe_cache);
    ScreenView { stacks: used.update(0, r), recipe_cache: c, ..v }
}

/// Whether a window is laid out for crafting: slot 0 shows the window's first
/// stack (the result), slots 1 on the grid's stacks in order, and the window
/// has stacks of its own for them all.
pub open spec fn result_placed(v: ScreenView) -> bool {
    &&& v.own_len >= 1 + grid_len(v.kind)
    &&& v.rules.len() > grid_len(v.kind)
    &&& forall|j: int| 0 <= j <= grid_len(v.kind) ==> #[trigger] v.rules[j].stack_index == j
}

/// Whether slot `slot` is laid out as its kind needs: a result slot is slot 0
/// of a window laid out for crafting.
pub open spec fn slot_placed(v: ScreenView, slot: int) -> bool {
    v.rules[slot].kind is Result ==> slot == 0 && result_placed(v)
}

/// The items held by the stacks that are not empty.
pub open spec fn filled_total(stacks: Seq<ItemStack>) -> nat
    decreases stacks.len(),
{
    if stacks.len() == 0 {
        0
    } else {
        filled_total(stacks.drop_last()) + if spec_is_empty(stacks.last()) {
            0
        } else {
            stacks.last().item_count as nat
        }
    }
}

/// Using one item of every stack takes an item from each stack that is not
/// empty: fewer items are left, unless every stack was empty.
pub proof fn lemma_use_one_total(a: Seq<ItemStack>, b: Seq<ItemStack>)
    requires
        b.len() == a.len(),
        forall|i: int| 0 <= i < a.len() ==> #[trigger] b[i] == use_one(a[i]),
    ensures
        filled_total(b) <= filled_total(a),
        (forall|i: int| 0 <= i < a.len() ==> spec_is_empty(#[trigger] a[i])) || filled_total(b) < filled_total(a),
    decreases a.len(),
{
    if a.len() > 0 {
        let a1 = a.drop_last();
        let b1 = b.drop_last();
        assert forall|i: int| 0 <= i < a1.len() implies #[trigger] b1[i] == use_one(a1[i]) by {
            assert(b[i] == use_one(a[i]));
        }
        lemma_use_one_total(a1, b1);
        assert(b.last() == use_one(a.last()));
        if !spec_is_empty(a.last()) {
        } else if !(forall|i: int| 0 <= i < a1.len() ==> spec_is_empty(#[trigger] a1[i])) {
        } else {
            assert forall|i: int| 0 <= i < a.len() implies spec_is_empty(#[trigger] a[i]) by {
                if i < a1.len() {
                    assert(a1[i] == a[i]);
                }
            }
        }
    }
}

/// A grid of empty stacks has no filled part.
proof fn lemma_empty_area(stacks: Seq<ItemStack>, width: int, n: int)
    requires
        n <= stacks.len(),
        forall|i: int| 0 <= i < stacks.len() ==> spec_is_empty(#[trigger] stacks[i]),
    ensures
        filled_area(stacks, width, n).count == 0,
    decreases n,
{
    if n > 0 {
        assert(spec_is_empty(stacks[n - 1]));
        lemma_empty_area(stacks, width, n - 1);
    }
}

/// Taking a result that is then shown again, of the kind of a stack that is
/// not empty, used up items of the grid.
pub proof fn lemma_take_result_progress(v: ScreenView, moved: ItemStack)
    requires
        v.stacks.len() >= 1 + grid_len(v.kind),
        !spec_is_empty(moved),
        same_kind(take_result(v).stacks[0], moved),
    ensures
        filled_total(grid_stacks(v.kind, take_result(v).stacks)) < filled_total(grid_stacks(v.kind, v.stacks)),
{
    let kind = v.kind;
    let used = use_grid(kind, v.stacks);
    let t = take_result(v).stacks;
    let a = grid_stacks(kind, v.stacks);
    let b = grid_stacks(kind, t);
    assert(b =~= grid_stacks(kind, used));
    assert forall|i: int| 0 <= i < a.len() implies #[trigger] b[i] == use_one(a[i]) by {
        assert(b[i] == used[1 + i]);
    }
    lemma_use_one_total(a, b);
    if forall|i: int| 0 <= i < a.len() ==> spec_is_empty(#[trigger] a[i]) {
        assert forall|i: int| 0 <= i < b.len() implies spec_is_empty(#[trigger] b[i]) by {
            assert(b[i] == use_one(a[i]));
            assert(spec_is_empty(a[i]));
        }
        let g = window_grid(kind, used);
        assert(g.stacks =~= b);
        lemma_empty_area(g.stacks, g.width as int, g.stacks.len() as int);
        assert(refill(g, v.recipes, v.recipe_cache).0 == empty_stack());
        assert(t[0] == empty_stack());
    }
}

impl ScreenState {
    /// Takes the crafting result: uses one item of every stack of the grid
    /// and shows what the grid then makes; see `take_result`.
    pub fn take_result(&mut self)
        requires
            old(self).wf(),
            old(self).own@.len() >= 1 + grid_len(old(self).kind),
        ensures
            final(self).kind == old(self).kind,
            final(self).recipes@ == old(self).recipes@,
            final(self).revision == old(self).revision,
            final(self).wf(),
            final(self).slots@ == old(self).slots@,
            final(self).own@.len() == old(self).own@.len(),
            final(self).player.selected_slot == old(self).player.selected_slot,
            final(self).cursor == old(self).cursor,
            final(self).drag_slots@ == old(self).drag_slots@,
            final(self).view() == take_result(old(self).view()),
    {
        let side: usize = if self.kind == ScreenKind::Player { 2 } else { 3 };
        let n: usize = if self.kind == ScreenKind::Player { 4 } else { 9 };
        assert(n == grid_len(self.kind));
        let ghost st0 = self.stacks();
        let mut i: usize = 1;
        while i <= n
            invariant
                self.wf(),
                self.kind == old(self).kind,
                self.recipes@ == old(self).recipes@,
                self.recipe_cache == old(self).recipe_cache,
                self.revision == old(self).revision,
                self.slots@ == old(self).slots@,
                self.own@.len() == old(self).own@.len(),
                self.player.selected_slot == old(self).player.selected_slot,
                self.cursor == old(self).cursor,
                self.drag_slots@ == old(self).drag_slots@,
                st0 == old(self).stacks(),
                n == grid_len(self.kind),
                n <= 9,
                self.own@.len() >= 1 + n,
                1 <= i <= n + 1,
                self.stacks().len() == st0.len(),
                forall|k: int| 0 <= k < st0.len() ==> #[trigger] self.stacks()[k] == if 1 <= k < i {
                    use_one(st0[k])
                } else {
                    st0[k]
                },
            decreases n + 1 - i,
        {
            let s = self.stack_at(i);
            if !s.is_empty() {
                let mut used = s;
                used.item_count = s.item_count - 1;
                self.set_stack_at(i, used);
            }
            i = i + 1;
        }
        assert(self.stacks() =~= use_grid(self.kind, st0));
        let ghost used = self.stacks();
        let mut cells: Vec<ItemStack> = Vec::new();
        let mut j: usize = 1;
        while j <= n
            invariant
                self.wf(),
                self.stacks() == used,
                self.own@.len() >= 1 + n,
                n <= 9,
                used.len() == self.own@.len() + 41,
                1 <= j <= n + 1,
                cells@ == used.subrange(1, j as int),
            decreases n + 1 - j,
        {
            let c = self.stack_at(j);
            cells.push(c);
            assert(cells@ =~= used.subrange(1, j + 1));
            j = j + 1;
        }
        let grid = CraftingGrid { width: side, height: side, stacks: cells };
        assert(grid@ == window_grid(self.kind, used));
        let made = find_recipe(&grid, &self.recipes, &mut self.recipe_cache);
        let result = match made {
            Some((m, _)) => m.to_stack(),
            None => ItemStack::empty(),
        };
        self.set_stack_at(0, result);
    }
}

/// Whether `m` is `g` mirrored left to right: each row of a square grid
/// reversed.
pub open spec fn is_mirror_of(m: GridView, g: GridView) -> bool {
    &&& m.width == g.width
    &&& m.height == g.height
    &&& m.stacks.len() == g.stacks.len()
    &&& forall|r: int, c: int|
        0 <= r < g.height && 0 <= c < g.width ==> #[trigger] m.stacks[r * g.width + c] == g.stacks[r * g.width + (
        g.width - 1 - c)]
}

proof fn lemma_cell_mirror(r: int, c: int, w: int)
    by (nonlinear_arith)
    requires
        0 <= r < w,
        0 <= c < w,
    ensures
        0 <= r * w + c < w * w,
        0 <= r * w + (w - 1 - c) < w * w,
{
}

/// Reading the pattern over a mirrored grid, from the mirrored corner, reads
/// the unmirrored grid the other way round.
proof fn lemma_mirror_pass(
    key: Seq<(char, Ingredient)>,
    pattern: Seq<Vec<char>>,
    g: GridView,
    m: GridView,
    top_x: int,
    top_y: int,
    input_width: int,
    mirrored: bool,
)
    requires
        g.wf(),
        is_mirror_of(m, g),
        1 <= input_width,
        0 <= top_x,
        0 <= top_y,
        top_x + input_width <= g.width,
        top_y + pattern.len() <= g.height,
        forall|y: int| 0 <= y < pattern.len() ==> #[trigger] pattern[y]@.len() <= input_width,
    ensures
        shaped_pass(key, pattern, m, g.width - top_x - input_width, top_y, input_width, mirrored)
            == shaped_pass(key, pattern, g, top_x, top_y, input_width, !mirrored),
{
    let w = g.width as int;
    let mx = w - top_x - input_width;
    assert forall|y: int, x: int| 0 <= y < pattern.len() && 0 <= x < pattern[y]@.len() implies m.stacks[cell_index(
        w,
        mx,
        top_y,
        input_width,
        mirrored,
        x,
        y,
    )] == g.stacks[cell_index(w, top_x, top_y, input_width, !mirrored, x, y)] by {
        let c = if mirrored {
            mx + input_width - 1 - x
        } else {
            x + mx
        };
        lemma_cell_mirror(y + top_y, c, w);
        assert(m.stacks[(y + top_y) * w + c] == g.stacks[(y + top_y) * w + (w - 1 - c)]);
    }
    if shaped_pass(key, pattern, m, mx, top_y, input_width, mirrored) {
        assert forall|y: int, x: int| 0 <= y < pattern.len() && 0 <= x < pattern[y]@.len() implies cell_accepts(
            key,
            #[trigger] pattern[y]@[x],
            g.stacks[cell_index(g.height as int, top_x, top_y, input_width, !mirrored, x, y)],
        ) by {
            assert(cell_accepts(key, pattern[y]@[x], m.stacks[cell_index(m.height as int, mx, top_y, input_width, mirrored, x, y)]));
        }
    }
    if shaped_pass(key, pattern, g, top_x, top_y, input_width, !mirrored) {
        assert forall|y: int, x: int| 0 <= y < pattern.len() && 0 <= x < pattern[y]@.len() implies cell_accepts(
            key,
            #[trigger] pattern[y]@[x],
            m.stacks[cell_index(m.height as int, mx, top_y, input_width, mirrored, x, y)],
        ) by {
            assert(cell_accepts(key, pattern[y]@[x], g.stacks[cell_index(g.height as int, top_x, top_y, input_width, !mirrored, x, y)]));
        }
    }
}

/// A row that reads the same backwards has the same character at `x` and at
/// `width - 1 - x`.
proof fn lemma_reads_back_at(row: Seq<char>, width: int, x: int)
    requires
        reads_back(row, width),
        0 <= x < width,
    ensures
        row[x] == row[width - 1 - x],
{
    if x < width / 2 {
        assert(row[x] == row[width - x - 1]);
    } else if width - 1 - x < width / 2 {
        assert(row[width - 1 - x] == row[width - (width - 1 - x) - 1]);
    }
}

/// A symmetrical pattern reads a grid alike as written and mirrored.
proof fn lemma_symmetric_pass(
    key: Seq<(char, Ingredient)>,
    pattern: Seq<Vec<char>>,
    g: GridView,
    top_x: int,
    top_y: int,
    input_width: int,
)
    requires
        spec_is_symmetrical(pattern),
        pattern.len() > 0,
        pattern[0]@.len() == input_width,
    ensures
        shaped_pass(key, pattern, g, top_x, top_y, input_width, true) == shaped_pass(
            key,
            pattern,
            g,
            top_x,
            top_y,
            input_width,
            false,
        ),
{
    let h = g.height as int;
    if shaped_pass(key, pattern, g, top_x, top_y, input_width, false) {
        assert forall|y: int, x: int| 0 <= y < pattern.len() && 0 <= x < pattern[y]@.len() implies cell_accepts(
            key,
            #[trigger] pattern[y]@[x],
            g.stacks[cell_index(h, top_x, top_y, input_width, true, x, y)],
        ) by {
            assert(pattern[y]@.len() == input_width);
            lemma_reads_back_at(pattern[y]@, input_width, x);
            let x2 = input_width - 1 - x;
            assert(cell_accepts(key, pattern[y]@[x2], g.stacks[cell_index(h, top_x, top_y, input_width, false, x2, y)]));
        }
    }
    if shaped_pass(key, pattern, g, top_x, top_y, input_width, true) {
        assert forall|y: int, x: int| 0 <= y < pattern.len() && 0 <= x < pattern[y]@.len() implies cell_accepts(
            key,
            #[trigger] pattern[y]@[x],
            g.stacks[cell_index(h, top_x, top_y, input_width, false, x, y)],
        ) by {
            assert(pattern[y]@.len() == input_width);
            lemma_reads_back_at(pattern[y]@, input_width, x);
            let x2 = input_width - 1 - x;
            assert(cell_accepts(key, pattern[y]@[x2], g.stacks[cell_index(h, top_x, top_y, input_width, true, x2, y)]));
        }
    }
}

/// A shaped recipe makes the same from a grid and from the grid mirrored left
/// to right, its filled part mirrored with it.
pub proof fn law_shaped_recipe_mirrors(
    recipe: CraftingRecipeTypes,
    input_height: int,
    input_width: int,
    top_x: int,
    top_y: int,
    count: int,
    g: GridView,
    m: GridView,
)
    requires
        recipe is CraftingShaped,
        recipe_wf(recipe),
        g.wf(),
        is_mirror_of(m, g),
        1 <= input_width,
        0 <= top_x,
        0 <= top_y,
        top_x + input_width <= g.width,
        top_y + input_height <= g.height,
    ensures
        spec_recipe_matches(recipe, input_height, input_width, top_x, top_y, count, g) == spec_recipe_matches(
            recipe,
            input_height,
            input_width,
            g.width - top_x - input_width,
            top_y,
            count,
            m,
        ),
{
    match recipe {
        CraftingRecipeTypes::CraftingShaped { key, pattern, result } => {
            if pattern@.len() == input_height && pattern@[0]@.len() == input_width {
                assert forall|y: int| 0 <= y < pattern@.len() implies #[trigger] pattern@[y]@.len() <= input_width by {}
                let mx = g.width - top_x - input_width;
                lemma_mirror_pass(key@, pattern@, g, m, top_x, top_y, input_width, false);
                lemma_mirror_pass(key@, pattern@, g, m, top_x, top_y, input_width, true);
                if spec_is_symmetrical(pattern@) {
                    lemma_symmetric_pass(key@, pattern@, g, top_x, top_y, input_width);
                    lemma_symmetric_pass(key@, pattern@, m, mx, top_y, input_width);
                }
            }
        },
        _ => {},
    }
}

/// A transmute recipe matches no grid holding a stack that neither its input
/// nor its material accepts, wherever in the grid that stack lies.
pub proof fn law_transmute_rejects_other_items(
    input: Ingredient,
    material: Ingredient,
    result: RecipeResultStruct,
    input_height: int,
    input_width: int,
    top_x: int,
    top_y: int,
    count: int,
    grid: GridView,
    i: int,
)
    requires
        0 <= i < grid.stacks.len(),
        !spec_is_empty(grid.stacks[i]),
        !input.items@.contains(grid.stacks[i].item),
        !material.items@.contains(grid.stacks[i].item),
    ensures
        spec_recipe_matches(
            CraftingRecipeTypes::CraftingTransmute { input, material, result },
            input_height,
            input_width,
            top_x,
            top_y,
            count,
            grid,
        ) is None,
{
    assert(!transmute_fits(grid.stacks, input, material)) by {
        assert(!(spec_is_empty(grid.stacks[i]) || material.items@.contains(grid.stacks[i].item)
            || input.items@.contains(grid.stacks[i].item)));
    }
}

} // verus!
