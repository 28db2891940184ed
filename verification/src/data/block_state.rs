//! Block states: their flags packed into one byte, and references to shared states.
use vstd::prelude::*;

verus! {

pub const IS_AIR: u8 = 0b00000001;
pub const BURNABLE: u8 = 0b00000010;
pub const TOOL_REQUIRED: u8 = 0b00000100;
pub const SIDED_TRANSPARENCY: u8 = 0b00001000;
pub const REPLACEABLE: u8 = 0b00010000;
pub const IS_LIQUID: u8 = 0b00100000;
pub const IS_SOLID: u8 = 0b01000000;
pub const IS_FULL_CUBE: u8 = 0b10000000;

/// A block state. The hardness is held by its IEEE-754 bit pattern; an opacity
/// of `u8::MAX` and a block entity type of `u16::MAX` stand for none.
#[derive(Clone, Debug)]
pub struct BlockState {
    pub id: u16,
    pub state_flags: u8,
    pub luminance: u8,
    pub hardness_bits: u32,
    pub collision_shapes: Vec<u16>,
    pub opacity: u8,
    pub block_entity_type: u16,
}

/// Whether the flag bit `flag` is set in `flags`.
pub open spec fn has_flag(flags: u8, flag: u8) -> bool {
    flags & flag != 0
}

impl BlockState {
    pub fn is_air(&self) -> (r: bool)
        ensures
            r == has_flag(self.state_flags, IS_AIR),
    {
        self.state_flags & IS_AIR != 0
    }

    pub fn burnable(&self) -> (r: bool)
        ensures
            r == has_flag(self.state_flags, BURNABLE),
    {
        self.state_flags & BURNABLE != 0
    }

    pub fn tool_required(&self) -> (r: bool)
        ensures
            r == has_flag(self.state_flags, TOOL_REQUIRED),
    {
        self.state_flags & TOOL_REQUIRED != 0
    }

    pub fn sided_transparency(&self) -> (r: bool)
        ensures
            r == has_flag(self.state_flags, SIDED_TRANSPARENCY),
    {
        self.state_flags & SIDED_TRANSPARENCY != 0
    }

    pub fn replaceable(&self) -> (r: bool)
        ensures
            r == has_flag(self.state_flags, REPLACEABLE),
    {
        self.state_flags & REPLACEABLE != 0
    }

    pub fn is_liquid(&self) -> (r: bool)
        ensures
            r == has_flag(self.state_flags, IS_LIQUID),
    {
        self.state_flags & IS_LIQUID != 0
    }

    pub fn is_solid(&self) -> (r: bool)
        ensures
            r == has_flag(self.state_flags, IS_SOLID),
    {
        self.state_flags & IS_SOLID != 0
    }

    pub fn is_full_cube(&self) -> (r: bool)
        ensures
            r == has_flag(self.state_flags, IS_FULL_CUBE),
    {
        self.state_flags & IS_FULL_CUBE != 0
    }
}

/// A block state given by its id and the index of its shared partial state.
#[derive(Clone, Copy, Debug, PartialEq, Eq, Structural)]
pub struct BlockStateRef {
    pub id: u16,
    pub state_idx: u16,
}

/// The flags are independent bits: each is read back from the byte that packs them.
pub proof fn law_flags_independent(air: bool, burnable: bool, tool: bool, sided: bool, replaceable: bool, liquid: bool, solid: bool, full: bool)
    ensures
        ({
            let flags: u8 = (if air { IS_AIR } else { 0 }) | (if burnable { BURNABLE } else { 0 })
                | (if tool { TOOL_REQUIRED } else { 0 }) | (if sided { SIDED_TRANSPARENCY } else { 0 })
                | (if replaceable { REPLACEABLE } else { 0 }) | (if liquid { IS_LIQUID } else { 0 })
                | (if solid { IS_SOLID } else { 0 }) | (if full { IS_FULL_CUBE } else { 0 });
            &&& has_flag(flags, IS_AIR) == air
            &&& has_flag(flags, BURNABLE) == burnable
            &&& has_flag(flags, TOOL_REQUIRED) == tool
            &&& has_flag(flags, SIDED_TRANSPARENCY) == sided
            &&& has_flag(flags, REPLACEABLE) == replaceable
            &&& has_flag(flags, IS_LIQUID) == liquid
            &&& has_flag(flags, IS_SOLID) == solid
            &&& has_flag(flags, IS_FULL_CUBE) == full
        }),
{
    let a: u8 = if air { 1 } else { 0 };
    let b: u8 = if burnable { 2 } else { 0 };
    let c: u8 = if tool { 4 } else { 0 };
    let d: u8 = if sided { 8 } else { 0 };
    let e: u8 = if replaceable { 16 } else { 0 };
    let f: u8 = if liquid { 32 } else { 0 };
    let g: u8 = if solid { 64 } else { 0 };
    let h: u8 = if full { 128 } else { 0 };
    assert({
        let flags = a | b | c | d | e | f | g | h;
        &&& (flags & 1 != 0) == (a == 1)
        &&& (flags & 2 != 0) == (b == 2)
        &&& (flags & 4 != 0) == (c == 4)
        &&& (flags & 8 != 0) == (d == 8)
        &&& (flags & 16 != 0) == (e == 16)
        &&& (flags & 32 != 0) == (f == 32)
        &&& (flags & 64 != 0) == (g == 64)
        &&& (flags & 128 != 0) == (h == 128)
    }) by (bit_vector)
        requires
            a == 0 || a == 1,
            b == 0 || b == 2,
            c == 0 || c == 4,
            d == 0 || d == 8,
            e == 0 || e == 16,
            f == 0 || f == 32,
            g == 0 || g == 64,
            h == 0 || h == 128,
    ;
}

} // verus!
