use vstd::prelude::*;

use crate::text::str_equals;

verus! {

/// The fluids of the game.
#[derive(Debug, Copy, Clone, PartialEq, Eq, Structural, PartialOrd, Ord, Hash)]
pub enum Fluid {
    Water,
    CrudeOil,
    NitrogenGas,
    LiquidBiofuel,
    HeavyOilResidue,
    Fuel,
    Turbofuel,
    AluminaSolution,
    SulfuricAcid,
    NitricAcid,
}

/// The display name of each fluid.
pub open spec fn fluid_name(fluid: Fluid) -> Seq<char> {
    match fluid {
        Fluid::Water => "Water"@,
        Fluid::CrudeOil => "Crude Oil"@,
        Fluid::NitrogenGas => "Nitrogen Gas"@,
        Fluid::LiquidBiofuel => "Liquid Biofuel"@,
        Fluid::HeavyOilResidue => "Heavy Oil Residue"@,
        Fluid::Fuel => "Fuel"@,
        Fluid::Turbofuel => "Turbofuel"@,
        Fluid::AluminaSolution => "Alumina Solution"@,
        Fluid::SulfuricAcid => "Sulfuric Acid"@,
        Fluid::NitricAcid => "Nitric Acid"@,
    }
}

/// Whether the fluid is drawn from the world rather than produced.
pub open spec fn fluid_is_raw(fluid: Fluid) -> bool {
    fluid is Water || fluid is CrudeOil || fluid is NitrogenGas
}

/// No two fluids share a display name.
pub proof fn lemma_fluid_name_injective(a: Fluid, b: Fluid)
    ensures
        fluid_name(a) == fluid_name(b) ==> a == b,
{
    reveal_strlit("Water");
    reveal_strlit("Crude Oil");
    reveal_strlit("Nitrogen Gas");
    reveal_strlit("Liquid Biofuel");
    reveal_strlit("Heavy Oil Residue");
    reveal_strlit("Fuel");
    reveal_strlit("Turbofuel");
    reveal_strlit("Alumina Solution");
    reveal_strlit("Sulfuric Acid");
    reveal_strlit("Nitric Acid");
    if fluid_name(a) == fluid_name(b) && a != b {
        assert(fluid_name(a).len() == fluid_name(b).len());
        assert(fluid_name(a)[0] == fluid_name(b)[0]);
    }
}

impl Fluid {
    pub fn display_name(&self) -> (r: &'static str)
        ensures
            r@ == fluid_name(*self),
    {
        match self {
            Fluid::Water => "Water",
            Fluid::CrudeOil => "Crude Oil",
            Fluid::NitrogenGas => "Nitrogen Gas",
            Fluid::LiquidBiofuel => "Liquid Biofuel",
            Fluid::HeavyOilResidue => "Heavy Oil Residue",
            Fluid::Fuel => "Fuel",
            Fluid::Turbofuel => "Turbofuel",
            Fluid::AluminaSolution => "Alumina Solution",
            Fluid::SulfuricAcid => "Sulfuric Acid",
            Fluid::NitricAcid => "Nitric Acid",
        }
    }

    /// The fluid whose display name is exactly `value`, if any.
    pub fn from_str(value: &str) -> (r: Option<Fluid>)
        ensures
            match r {
                Some(f) => fluid_name(f) == value@,
                None => forall|f: Fluid| fluid_name(f) != value@,
            },
            forall|f: Fluid| fluid_name(f) == value@ ==> r == Some(f),
    {
        let all = [
            Fluid::Water,
            Fluid::CrudeOil,
            Fluid::NitrogenGas,
            Fluid::LiquidBiofuel,
            Fluid::HeavyOilResidue,
            Fluid::Fuel,
            Fluid::Turbofuel,
            Fluid::AluminaSolution,
            Fluid::SulfuricAcid,
            Fluid::NitricAcid,
        ];
        let mut i: usize = 0;
        while i < 10
            invariant
                i <= 10,
                all@ == seq![
                    Fluid::Water,
                    Fluid::CrudeOil,
                    Fluid::NitrogenGas,
                    Fluid::LiquidBiofuel,
                    Fluid::HeavyOilResidue,
                    Fluid::Fuel,
                    Fluid::Turbofuel,
                    Fluid::AluminaSolution,
                    Fluid::SulfuricAcid,
                    Fluid::NitricAcid,
                ],
                forall|j: int| 0 <= j < i ==> fluid_name(all@[j]) != value@,
            decreases 10 - i,
        {
            let f = all[i];
            if str_equals(f.display_name(), value) {
                proof {
                    assert forall|g: Fluid| fluid_name(g) == value@ implies Some(f) == Some(g) by {
                        lemma_fluid_name_injective(f, g);
                    }
                }
                return Some(f);
            }
            i = i + 1;
        }
        proof {
            assert forall|f: Fluid| fluid_name(f) != value@ by {
                match f {
                    Fluid::Water => assert(fluid_name(all@[0]) != value@),
                    Fluid::CrudeOil => assert(fluid_name(all@[1]) != value@),
                    Fluid::NitrogenGas => assert(fluid_name(all@[2]) != value@),
                    Fluid::LiquidBiofuel => assert(fluid_name(all@[3]) != value@),
                    Fluid::HeavyOilResidue => assert(fluid_name(all@[4]) != value@),
                    Fluid::Fuel => assert(fluid_name(all@[5]) != value@),
                    Fluid::Turbofuel => assert(fluid_name(all@[6]) != value@),
                    Fluid::AluminaSolution => assert(fluid_name(all@[7]) != value@),
                    Fluid::SulfuricAcid => assert(fluid_name(all@[8]) != value@),
                    Fluid::NitricAcid => assert(fluid_name(all@[9]) != value@),
                }
            }
        }
        None
    }

    pub fn is_raw(&self) -> (r: bool)
        ensures
            r == fluid_is_raw(*self),
    {
        matches!(self, Fluid::Water | Fluid::CrudeOil | Fluid::NitrogenGas)
    }
}

} // verus!
