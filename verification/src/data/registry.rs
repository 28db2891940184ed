//! Plain records of the registries that the data generator reads, and the
//! packet id constants it derives from the packet registry.
use vstd::prelude::*;

verus! {

/// How a biome's temperature is adjusted; `Normal` leaves it as it is.
#[derive(Clone, Copy, Debug, PartialEq, Eq, Structural)]
pub enum TemperatureModifier {
    Normal,
    Frozen,
}

#[derive(Clone, Copy, Debug, PartialEq, Eq, Structural)]
pub enum DamageScaling {
    Never,
    WhenCausedByLivingNonPlayer,
    Always,
}

#[derive(Clone, Copy, Debug, PartialEq, Eq, Structural)]
pub enum DeathMessageType {
    Default,
    FallVariants,
    IntentionalGameDesign,
}

/// An entity type's registry entry.
#[derive(Clone, Copy, Debug, PartialEq, Eq, Structural)]
pub struct JSONStruct {
    pub id: u16,
}

/// How an attribute modifier combines with the base value.
#[derive(Clone, Copy, Debug, PartialEq, Eq, Structural)]
pub enum Operation {
    AddValue,
    AddMultipliedBase,
    AddMultipliedTotal,
}

/// An enum to generate: its name and the names of its variants.
pub struct EnumCreator {
    pub name: String,
    pub value: Vec<String>,
}

/// The packet registry: the protocol version and, per phase, the packet names
/// in id order.
pub struct Packets {
    pub version: u32,
    pub serverbound: Vec<(String, Vec<String>)>,
    pub clientbound: Vec<(String, Vec<String>)>,
}

/// What `str::to_uppercase` makes of a text (Unicode upper-case mapping).
pub uninterp spec fn uppercase(text: Seq<char>) -> Seq<char>;

/// Calls `str::to_uppercase`. Trusted: the result is the named mapping of the text.
#[verifier::external_body]
fn to_uppercase(text: &str) -> (r: String)
    ensures
        r@ == uppercase(text@),
{
    text.to_uppercase()
}

/// The constants of one phase: each packet's name, prefixed by the phase and
/// upper-cased, with its position as id.
pub open spec fn phase_constants(phase: Seq<char>, names: Seq<String>) -> Seq<(Seq<char>, i32)> {
    Seq::new(names.len(), |j: int| (uppercase(phase + "_"@ + names[j]@), j as i32))
}

/// The constants of all phases, phase by phase.
pub open spec fn packet_constants(phases: Seq<(String, Vec<String>)>) -> Seq<(Seq<char>, i32)>
    decreases phases.len(),
{
    if phases.len() == 0 {
        Seq::empty()
    } else {
        packet_constants(phases.drop_last()) + phase_constants(
            phases.last().0@,
            phases.last().1@,
        )
    }
}

/// The texts and values of named constants.
pub open spec fn constant_views(v: Seq<(String, i32)>) -> Seq<(Seq<char>, i32)> {
    v.map_values(|c: (String, i32)| (c.0@, c.1))
}

/// The packet id constants: per phase, each packet's upper-cased name and its id.
pub fn parse_packets(packets: &Vec<(String, Vec<String>)>) -> (r: Vec<(String, i32)>)
    ensures
        constant_views(r@) == packet_constants(packets@),
{
    let mut consts: Vec<(String, i32)> = Vec::new();
    let mut p: usize = 0;
    while p < packets.len()
        invariant
            p <= packets@.len(),
            constant_views(consts@) == packet_constants(packets@.subrange(0, p as int)),
        decreases packets.len() - p,
    {
        let phase = &packets[p].0;
        let names = &packets[p].1;
        let ghost before = constant_views(consts@);
        let mut id: usize = 0;
        while id < names.len()
            invariant
                id <= names@.len(),
                constant_views(consts@) == before + phase_constants(phase@, names@.subrange(0, id as int)),
            decreases names.len() - id,
        {
            let mut full = phase.clone();
            full.append("_");
            full.append(names[id].as_str());
            let name = to_uppercase(full.as_str());
            let ghost prev = consts@;
            let ghost text = name@;
            consts.push((name, id as i32));
            proof {
                assert(constant_views(consts@) =~= constant_views(prev).push((text, id as i32)));
                assert(phase_constants(phase@, names@.subrange(0, id + 1)) =~= phase_constants(
                    phase@,
                    names@.subrange(0, id as int),
                ).push((text, id as i32)));
            }
            id = id + 1;
        }
        proof {
            assert(names@.subrange(0, names@.len() as int) =~= names@);
            assert(packets@.subrange(0, p + 1).drop_last() =~= packets@.subrange(0, p as int));
            assert(packets@.subrange(0, p + 1).last() == packets@[p as int]);
        }
        p = p + 1;
    }
    assert(packets@.subrange(0, packets@.len() as int) =~= packets@);
    consts
}

} // verus!
