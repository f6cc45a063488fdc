//! Whether the full plan graph of a request fits the index space of the
//! graph store, computed without overflow.
use vstd::prelude::*;

use super::config::PlanConfig;
use super::full_plan_graph::{max_inputs, max_outputs, plan_capacity, recipe_cost, step_cost};
use crate::game::Recipe;

verus! {

/// `x`, or the largest `u32` when `x` is larger.
pub open spec fn capped(x: int) -> int {
    if x < u32::MAX {
        x
    } else {
        u32::MAX as int
    }
}

proof fn lemma_capped_add(a: int, b: int)
    requires
        a >= 0,
        b >= 0,
    ensures
        capped(capped(a) + capped(b)) == capped(a + b),
{
}

proof fn lemma_capped_mul(a: int, b: int)
    requires
        a >= 0,
        b >= 0,
    ensures
        capped(capped(a) * capped(b)) == capped(a * b),
{
    let m = u32::MAX as int;
    if a == 0 || b == 0 {
        assert(a * b == 0) by (nonlinear_arith)
            requires
                a == 0 || b == 0,
        ;
        assert(capped(a) * capped(b) == 0) by (nonlinear_arith)
            requires
                capped(a) == 0 || capped(b) == 0,
        ;
    } else if a >= m || b >= m {
        assert(a * b >= m) by (nonlinear_arith)
            requires
                a >= 1,
                b >= 1,
                a >= m || b >= m,
        ;
        assert(capped(a) * capped(b) >= m) by (nonlinear_arith)
            requires
                capped(a) >= 1,
                capped(b) >= 1,
                capped(a) >= m || capped(b) >= m,
        ;
    }
}

fn cap_len(x: usize) -> (r: u64)
    ensures
        r == capped(x as int),
{
    if x < 4294967295 {
        x as u64
    } else {
        4294967295
    }
}

fn add_capped(a: u64, b: u64) -> (r: u64)
    requires
        a <= u32::MAX,
        b <= u32::MAX,
    ensures
        r == capped(a + b),
{
    let s = a + b;
    if s < 4294967295 {
        s
    } else {
        4294967295
    }
}

fn mul_capped(a: u64, b: u64) -> (r: u64)
    requires
        a <= u32::MAX,
        b <= u32::MAX,
    ensures
        r == capped(a * b),
{
    assert(a * b <= 4294967295 * 4294967295) by (nonlinear_arith)
        requires
            a <= 4294967295,
            b <= 4294967295,
    ;
    let p = a * b;
    if p < 4294967295 {
        p
    } else {
        4294967295
    }
}

/// The largest numbers of inputs and of outputs of a recipe.
fn recipe_extents<A>(recipes: &Vec<Recipe<A>>) -> (r: (usize, usize))
    ensures
        r.0 == max_inputs(recipes@),
        r.1 == max_outputs(recipes@),
{
    let mut ins: usize = 0;
    let mut outs: usize = 0;
    let mut i: usize = 0;
    while i < recipes.len()
        invariant
            i <= recipes@.len(),
            ins == max_inputs(recipes@.take(i as int)),
            outs == max_outputs(recipes@.take(i as int)),
        decreases recipes.len() - i,
    {
        proof {
            assert(recipes@.take(i + 1).drop_last() =~= recipes@.take(i as int));
        }
        if recipes[i].inputs.len() > ins {
            ins = recipes[i].inputs.len();
        }
        if recipes[i].outputs.len() > outs {
            outs = recipes[i].outputs.len();
        }
        i = i + 1;
    }
    proof {
        assert(recipes@.take(i as int) =~= recipes@);
    }
    (ins, outs)
}

impl<A> PlanConfig<A> {
    /// Whether the full plan graph of the request fits the index space of
    /// the graph store, which counts nodes and edges with `u32`; what
    /// `build_full_plan` needs before it may be called.
    pub fn fits_index_space(&self) -> (r: bool)
        ensures
            r == (plan_capacity(*self) < u32::MAX),
    {
        let (ins, outs) = recipe_extents(&self.game_db.recipes);
        let b = cap_len(self.game_db.buildings.len());
        let step = add_capped(mul_capped(2, b), 4);
        let per_recipe = add_capped(
            add_capped(2, mul_capped(2, cap_len(outs))),
            mul_capped(cap_len(ins), step),
        );
        let total = add_capped(
            mul_capped(per_recipe, cap_len(self.game_db.recipes.len())),
            mul_capped(cap_len(self.outputs.len()), add_capped(1, step)),
        );
        proof {
            let nb = self.game_db.buildings@.len() as int;
            let mi = max_inputs(self.game_db.recipes@) as int;
            let mo = max_outputs(self.game_db.recipes@) as int;
            let nr = self.game_db.recipes@.len() as int;
            let no = self.outputs@.len() as int;
            let sc = step_cost(*self) as int;
            let rc = recipe_cost(*self) as int;
            lemma_capped_mul(2, nb);
            lemma_capped_add(2 * nb, 4);
            assert(step == capped(sc));
            lemma_capped_mul(2, mo);
            lemma_capped_add(2, 2 * mo);
            lemma_capped_mul(mi, sc);
            assert(mi * sc >= 0) by (nonlinear_arith)
                requires
                    mi >= 0,
                    sc >= 0,
            ;
            lemma_capped_add(2 + 2 * mo, mi * sc);
            assert(per_recipe == capped(rc));
            lemma_capped_mul(rc, nr);
            lemma_capped_add(1, sc);
            lemma_capped_mul(no, 1 + sc);
            assert(rc * nr >= 0 && no * (1 + sc) >= 0) by (nonlinear_arith)
                requires
                    rc >= 0,
                    nr >= 0,
                    no >= 0,
                    sc >= 0,
            ;
            lemma_capped_add(rc * nr, no * (1 + sc));
            assert(total == capped(plan_capacity(*self) as int));
        }
        total < 4294967295
    }
}

} // verus!
