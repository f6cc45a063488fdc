use std::sync::Arc;
use vstd::prelude::*;

use super::{PlanError, PlanErrorView};
use crate::checks::{first_some, lemma_first_some_at, lemma_first_some_concat, lemma_first_some_none};
use crate::game::database::item_answers_to;
use crate::game::item_value_pairs::{Amount, Sign};
use crate::game::{GameDatabase, Item, ItemId, Recipe, RecipeId};
use crate::text::str_equals;
use vstd::string::StrSliceExecFns;

verus! {

/// How much of an output is wanted: as much as possible, or a rate.
#[derive(Debug, Copy, Clone)]
pub enum OutputAmount<A> {
    Maximize,
    PerMinute(Amount<A>),
}

/// A plan request as it is submitted: items and recipes by name or key.
/// Each item appears at most once among the inputs and once among the
/// outputs, as in the map it is read from.
#[derive(Debug, Clone)]
pub struct PlanConfigDefinition<A> {
    pub inputs: Vec<(String, Amount<A>)>,
    pub outputs: Vec<(String, OutputAmount<A>)>,
    pub recipes: Vec<String>,
}

/// A validated plan request. Each item appears at most once among the
/// inputs and at most once among the outputs.
#[derive(Debug, Clone)]
pub struct PlanConfig<A> {
    pub inputs: Vec<(ItemId, Amount<A>)>,
    pub outputs: Vec<(ItemId, OutputAmount<A>)>,
    pub game_db: Arc<GameDatabase<A>>,
    pub enabled_recipes: Vec<RecipeId>,
}

impl<A> OutputAmount<A> {
    pub fn is_maximize(&self) -> (r: bool)
        ensures
            r == (*self is Maximize),
    {
        matches!(self, Self::Maximize)
    }

    pub fn is_per_minute(&self) -> (r: bool)
        ensures
            r == (*self is PerMinute),
    {
        matches!(self, Self::PerMinute(..))
    }

    pub fn as_per_minute(&self) -> (r: A)
        where A: Copy
        requires
            *self is PerMinute,
        ensures
            r == self->PerMinute_0.value,
    {
        match self {
            OutputAmount::PerMinute(a) => a.value,
            _ => {
                proof {
                    assert(false);
                }
                unreached()
            },
        }
    }
}

/// Whether no key appears twice.
pub open spec fn keys_distinct<K, V>(s: Seq<(K, V)>) -> bool {
    forall|i: int, j: int| 0 <= i < s.len() && 0 <= j < s.len() && i != j ==> s[i].0 != s[j].0
}

/// The map that a sequence of distinct key-value pairs stands for.
pub open spec fn pairs_map<K, V>(s: Seq<(K, V)>) -> Map<K, V> {
    Map::new(
        |k: K| exists|i: int| 0 <= i < s.len() && s[i].0 == k,
        |k: K| s[choose|i: int| 0 <= i < s.len() && s[i].0 == k].1,
    )
}

/// The map after inserting every entry, in order; later entries win.
pub open spec fn insert_all<K, V>(m: Map<K, V>, entries: Seq<(K, V)>) -> Map<K, V>
    decreases entries.len(),
{
    if entries.len() == 0 {
        m
    } else {
        insert_all(m, entries.drop_last()).insert(entries.last().0, entries.last().1)
    }
}

/// Whether entry `j` is the last entry for `key`.
pub open spec fn last_entry_for<K, V>(entries: Seq<(K, V)>, key: K, j: int) -> bool {
    &&& 0 <= j < entries.len()
    &&& entries[j].0 == key
    &&& forall|l: int| j < l < entries.len() ==> entries[l].0 != key
}

/// Reading a key after inserting entries in order gives the value of the
/// last entry for the key; a key that no entry names keeps what it had.
pub proof fn lemma_insert_all_lookup<K, V>(m: Map<K, V>, entries: Seq<(K, V)>, key: K)
    ensures
        forall|j: int|
            #[trigger] last_entry_for(entries, key, j) ==> insert_all(m, entries).dom().contains(key)
                && insert_all(m, entries)[key] == entries[j].1,
        (forall|j: int| 0 <= j < entries.len() ==> entries[j].0 != key) ==> (insert_all(
            m,
            entries,
        ).dom().contains(key) == m.dom().contains(key) && (m.dom().contains(key) ==> insert_all(
            m,
            entries,
        )[key] == m[key])),
    decreases entries.len(),
{
    if entries.len() > 0 {
        let rest = entries.drop_last();
        lemma_insert_all_lookup(m, rest, key);
        assert forall|j: int| #[trigger] last_entry_for(entries, key, j) implies insert_all(
            m,
            entries,
        ).dom().contains(key) && insert_all(m, entries)[key] == entries[j].1 by {
            if j < entries.len() - 1 {
                assert(entries.last().0 != key);
                assert(rest[j] == entries[j]);
                assert forall|l: int| j < l < rest.len() implies rest[l].0 != key by {
                    assert(rest[l] == entries[l]);
                }
                assert(last_entry_for(rest, key, j));
            }
        }
        if forall|j: int| 0 <= j < entries.len() ==> entries[j].0 != key {
            assert(entries.last().0 != key);
            assert forall|j: int| 0 <= j < rest.len() implies rest[j].0 != key by {
                assert(rest[j] == entries[j]);
            }
        }
    }
}

/// The first item that answers to `query`.
pub open spec fn answering_item(items: Seq<Item>, query: Seq<char>) -> int {
    choose|i: int|
        0 <= i < items.len() && item_answers_to(items[i], query) && forall|j: int|
            0 <= j < i ==> !item_answers_to(items[j], query)
}

/// Whether some item answers to `query`.
pub open spec fn some_item_answers(items: Seq<Item>, query: Seq<char>) -> bool {
    exists|i: int| 0 <= i < items.len() && item_answers_to(items[i], query)
}

/// Whether some recipe has `name` as its exact key or exact name.
pub open spec fn some_recipe_named<A>(recipes: Seq<Recipe<A>>, name: Seq<char>) -> bool {
    exists|i: int| 0 <= i < recipes.len() && (recipes[i].key@ == name || recipes[i].name@ == name)
}

/// The check of one requested output.
pub open spec fn output_check<A>(items: Seq<Item>, name: Seq<char>, amount: OutputAmount<A>) -> Option<
    PlanErrorView,
> {
    if !some_item_answers(items, name) {
        Some(PlanErrorView::UnknownItem(name))
    } else if items[answering_item(items, name)].resource {
        Some(PlanErrorView::UnexpectedResourceInOutputs(items[answering_item(items, name)].name@))
    } else if amount matches OutputAmount::PerMinute(a) && (a.sign is Negative || a.sign is Zero) {
        Some(PlanErrorView::InvalidOutputAmount(name))
    } else {
        None
    }
}

/// The check of one given input.
pub open spec fn input_check<A>(items: Seq<Item>, name: Seq<char>, amount: Amount<A>) -> Option<
    PlanErrorView,
> {
    if !some_item_answers(items, name) {
        Some(PlanErrorView::UnknownItem(name))
    } else if amount.sign is Negative {
        Some(PlanErrorView::InvalidInputAmount(name))
    } else {
        None
    }
}

/// The recipe entry that enables every recipe that is not an alternate.
pub open spec fn base_selector() -> Seq<char> {
    "base"@
}

/// The recipe entry that enables every alternate recipe.
pub open spec fn alternate_selector() -> Seq<char> {
    "alt"@
}

/// The text that starts a recipe entry which excludes a recipe.
pub open spec fn exclusion_mark() -> Seq<char> {
    "exclude:"@
}

/// A text without the spaces it starts with.
pub open spec fn without_leading_spaces(s: Seq<char>) -> Seq<char>
    decreases s.len(),
{
    if s.len() > 0 && s[0] == ' ' {
        without_leading_spaces(s.skip(1))
    } else {
        s
    }
}

/// The recipe that an entry excludes: what follows the exclusion mark,
/// without leading spaces, when the entry starts with the mark.
pub open spec fn excluded_recipe(entry: Seq<char>) -> Option<Seq<char>> {
    if exclusion_mark().is_prefix_of(entry) {
        Some(without_leading_spaces(entry.skip(exclusion_mark().len() as int)))
    } else {
        None
    }
}

/// The check of one recipe entry: a selector of the base or alternate
/// recipes, an exclusion of a recipe named by its exact key or name, or
/// the exact key or name of a recipe.
pub open spec fn recipe_check<A>(recipes: Seq<Recipe<A>>, name: Seq<char>) -> Option<PlanErrorView> {
    let known = if name == base_selector() || name == alternate_selector() {
        true
    } else {
        match excluded_recipe(name) {
            Some(x) => some_recipe_named(recipes, x),
            None => some_recipe_named(recipes, name),
        }
    };
    if known {
        None
    } else {
        Some(PlanErrorView::UnknownRecipe(name))
    }
}

pub open spec fn output_checks<A>(items: Seq<Item>, entries: Seq<(String, OutputAmount<A>)>) -> Seq<
    Option<PlanErrorView>,
> {
    entries.map_values(|e: (String, OutputAmount<A>)| output_check(items, e.0@, e.1))
}

pub open spec fn input_checks<A>(items: Seq<Item>, entries: Seq<(String, Amount<A>)>) -> Seq<
    Option<PlanErrorView>,
> {
    entries.map_values(|e: (String, Amount<A>)| input_check(items, e.0@, e.1))
}

pub open spec fn recipe_checks<A>(recipes: Seq<Recipe<A>>, names: Seq<String>) -> Seq<
    Option<PlanErrorView>,
> {
    names.map_values(|n: String| recipe_check(recipes, n@))
}

/// The error that a plan request is refused with, if any: the outputs are
/// checked in order, then the inputs, then the enabled recipe names.
pub open spec fn plan_request_error<A>(db: GameDatabase<A>, def: PlanConfigDefinition<A>) -> Option<
    PlanErrorView,
> {
    first_some(
        output_checks(db.items@, def.outputs@) + input_checks(db.items@, def.inputs@)
            + recipe_checks(db.recipes@, def.recipes@),
    )
}

/// Entries with each item name resolved.
pub open spec fn resolve_names<V>(items: Seq<Item>, entries: Seq<(String, V)>) -> Seq<(ItemId, V)> {
    entries.map_values(|e: (String, V)| (answering_item(items, e.0@) as ItemId, e.1))
}

/// Whether a recipe entry selects `recipe`: the entry is the recipe's
/// exact key or name, or the selector of its kind, base or alternate.
pub open spec fn entry_selects<A>(recipe: Recipe<A>, entry: Seq<char>) -> bool {
    ||| entry == recipe.key@
    ||| entry == recipe.name@
    ||| entry == base_selector() && !recipe.alternate
    ||| entry == alternate_selector() && recipe.alternate
}

/// Whether a recipe entry excludes `recipe`, naming it by its exact key or
/// name.
pub open spec fn entry_excludes<A>(recipe: Recipe<A>, entry: Seq<char>) -> bool {
    excluded_recipe(entry) matches Some(x) && (x == recipe.key@ || x == recipe.name@)
}

/// Whether `recipe` is enabled by the list of recipe entries: some entry
/// selects it and none excludes it.
pub open spec fn recipe_enabled_by<A>(recipe: Recipe<A>, names: Seq<String>) -> bool {
    &&& exists|k: int| 0 <= k < names.len() && entry_selects(recipe, #[trigger] names[k]@)
    &&& forall|k: int| 0 <= k < names.len() ==> !entry_excludes(recipe, #[trigger] names[k]@)
}

/// Dropping the first character of a text that starts with a space leaves
/// it the same once leading spaces are dropped.
proof fn lemma_drop_space(s: Seq<char>, j: int)
    requires
        0 <= j < s.len(),
        s[j] == ' ',
    ensures
        without_leading_spaces(s.skip(j)) == without_leading_spaces(s.skip(j + 1)),
{
    assert(s.skip(j).skip(1) =~= s.skip(j + 1));
}

/// The recipe that `entry` excludes, if it is an exclusion.
fn exclusion_of(entry: &str) -> (r: Option<&str>)
    ensures
        match r {
            Some(x) => excluded_recipe(entry@) == Some(x@),
            None => excluded_recipe(entry@) is None,
        },
{
    let mark = "exclude:";
    proof {
        reveal_strlit("exclude:");
    }
    let n = entry.unicode_len();
    if n < 8 {
        return None;
    }
    let mut i: usize = 0;
    while i < 8
        invariant
            i <= 8,
            n == entry@.len(),
            8 <= n,
            mark@ == exclusion_mark(),
            mark@.len() == 8,
            forall|k: int| 0 <= k < i ==> entry@[k] == mark@[k],
        decreases 8 - i,
    {
        if entry.get_char(i) != mark.get_char(i) {
            proof {
                assert(!exclusion_mark().is_prefix_of(entry@)) by {
                    if exclusion_mark().is_prefix_of(entry@) {
                        assert(entry@.subrange(0, 8)[i as int] == entry@[i as int]);
                    }
                }
            }
            return None;
        }
        i = i + 1;
    }
    proof {
        assert(entry@.subrange(0, 8) =~= mark@);
        assert(exclusion_mark().is_prefix_of(entry@));
    }
    let mut j: usize = 8;
    while j < n && entry.get_char(j) == ' '
        invariant
            8 <= j <= n,
            n == entry@.len(),
            without_leading_spaces(entry@.skip(8)) == without_leading_spaces(entry@.skip(j as int)),
        decreases n - j,
    {
        proof {
            lemma_drop_space(entry@, j as int);
        }
        j = j + 1;
    }
    let rest = entry.substring_char(j, n);
    proof {
        assert(rest@ =~= entry@.skip(j as int));
        if j < n {
            assert(entry@.skip(j as int)[0] == entry@[j as int]);
        }
    }
    Some(rest)
}

/// Inserts `value` under `key`, replacing the value of an existing entry.
pub(crate) fn insert_pair<V>(pairs: &mut Vec<(ItemId, V)>, key: ItemId, value: V)
    requires
        keys_distinct(old(pairs)@),
    ensures
        keys_distinct(final(pairs)@),
        pairs_map(final(pairs)@) == pairs_map(old(pairs)@).insert(key, value),
{
    let mut i: usize = 0;
    while i < pairs.len()
        invariant
            i <= pairs@.len(),
            pairs@ == old(pairs)@,
            keys_distinct(pairs@),
            forall|j: int| 0 <= j < i ==> pairs@[j].0 != key,
        decreases pairs.len() - i,
    {
        if pairs[i].0 == key {
            let ghost before = pairs@;
            pairs.set(i, (key, value));
            proof {
                assert(pairs@ == before.update(i as int, (key, value)));
                assert forall|a: int, b: int|
                    0 <= a < pairs@.len() && 0 <= b < pairs@.len() && a != b implies pairs@[a].0
                    != pairs@[b].0 by {
                    assert(pairs@[a].0 == before[a].0);
                    assert(pairs@[b].0 == before[b].0);
                }
                let m = pairs_map(pairs@);
                let n = pairs_map(before).insert(key, value);
                assert forall|k: ItemId| m.dom().contains(k) <==> n.dom().contains(k) by {
                    if k == key {
                        assert(pairs@[i as int].0 == key);
                    }
                    if n.dom().contains(k) && k != key {
                        let w = choose|w: int| 0 <= w < before.len() && before[w].0 == k;
                        assert(pairs@[w].0 == k);
                    }
                    if m.dom().contains(k) {
                        let w = choose|w: int| 0 <= w < pairs@.len() && pairs@[w].0 == k;
                        assert(before[w].0 == k);
                    }
                }
                assert forall|k: ItemId| #[trigger] m.dom().contains(k) implies m[k] == n[k] by {
                    let w = choose|w: int| 0 <= w < pairs@.len() && pairs@[w].0 == k;
                    assert(before[w].0 == k);
                    if k == key {
                        assert(w == i);
                    } else {
                        let v = choose|v: int| 0 <= v < before.len() && before[v].0 == k;
                        assert(v == w);
                    }
                }
                assert(m =~= n);
            }
            return;
        }
        i = i + 1;
    }
    let ghost before = pairs@;
    pairs.push((key, value));
    proof {
        let m = pairs_map(pairs@);
        let n = pairs_map(before).insert(key, value);
        assert(pairs@[before.len() as int].0 == key);
        assert forall|k: ItemId| m.dom().contains(k) <==> n.dom().contains(k) by {
            if n.dom().contains(k) && k != key {
                let w = choose|w: int| 0 <= w < before.len() && before[w].0 == k;
                assert(pairs@[w].0 == k);
            }
            if m.dom().contains(k) && k != key {
                let w = choose|w: int| 0 <= w < pairs@.len() && pairs@[w].0 == k;
                assert(w < before.len());
                assert(before[w].0 == k);
            }
        }
        assert forall|k: ItemId| #[trigger] m.dom().contains(k) implies m[k] == n[k] by {
            let w = choose|w: int| 0 <= w < pairs@.len() && pairs@[w].0 == k;
            if k == key {
                assert(w == before.len());
            } else {
                let v = choose|v: int| 0 <= v < before.len() && before[v].0 == k;
                assert(pairs@[v].0 == k);
                assert(v == w);
            }
        }
        assert(m =~= n);
    }
}

/// Whether a recipe entry passes its check.
fn recipe_entry_known<A>(recipes: &Vec<Recipe<A>>, entry: &String) -> (r: bool)
    ensures
        r == (recipe_check(recipes@, entry@) is None),
{
    if str_equals(entry.as_str(), "base") || str_equals(entry.as_str(), "alt") {
        return true;
    }
    match exclusion_of(entry.as_str()) {
        Some(x) => recipe_name_known(recipes, x),
        None => recipe_name_known(recipes, entry.as_str()),
    }
}

/// Whether some recipe has `name` as its exact key or exact name.
fn recipe_name_known<A>(recipes: &Vec<Recipe<A>>, name: &str) -> (r: bool)
    ensures
        r == some_recipe_named(recipes@, name@),
{
    let mut i: usize = 0;
    while i < recipes.len()
        invariant
            i <= recipes@.len(),
            forall|j: int| 0 <= j < i ==> !(recipes@[j].key@ == name@ || recipes@[j].name@ == name@),
        decreases recipes.len() - i,
    {
        if str_equals(recipes[i].key.as_str(), name) || str_equals(recipes[i].name.as_str(), name) {
            return true;
        }
        i = i + 1;
    }
    false
}

/// Whether a recipe entry selects `recipe`.
fn entry_selects_recipe<A>(recipe: &Recipe<A>, entry: &str) -> (r: bool)
    ensures
        r == entry_selects(*recipe, entry@),
{
    str_equals(entry, recipe.key.as_str()) || str_equals(entry, recipe.name.as_str()) || (str_equals(
        entry,
        "base",
    ) && !recipe.alternate) || (str_equals(entry, "alt") && recipe.alternate)
}

/// Whether a recipe entry excludes `recipe`.
fn entry_excludes_recipe<A>(recipe: &Recipe<A>, entry: &str) -> (r: bool)
    ensures
        r == entry_excludes(*recipe, entry@),
{
    match exclusion_of(entry) {
        Some(x) => str_equals(x, recipe.key.as_str()) || str_equals(x, recipe.name.as_str()),
        None => false,
    }
}

/// Whether the recipe entries `names` enable `recipe`.
fn names_enable<A>(names: &Vec<String>, recipe: &Recipe<A>) -> (r: bool)
    ensures
        r == recipe_enabled_by(*recipe, names@),
{
    let mut selected = false;
    let mut i: usize = 0;
    while i < names.len()
        invariant
            i <= names@.len(),
            selected == exists|k: int| 0 <= k < i && entry_selects(*recipe, #[trigger] names@[k]@),
        decreases names.len() - i,
    {
        if entry_selects_recipe(recipe, names[i].as_str()) {
            selected = true;
        }
        proof {
            if selected {
                if !entry_selects(*recipe, names@[i as int]@) {
                    let k = choose|k: int| 0 <= k < i && entry_selects(*recipe, #[trigger] names@[k]@);
                    assert(0 <= k < i + 1 && entry_selects(*recipe, names@[k]@));
                }
            } else {
                assert forall|k: int| 0 <= k < i + 1 implies !entry_selects(*recipe, #[trigger] names@[k]@) by {}
            }
        }
        i = i + 1;
    }
    if !selected {
        return false;
    }
    let mut i: usize = 0;
    while i < names.len()
        invariant
            i <= names@.len(),
            forall|k: int| 0 <= k < i ==> !entry_excludes(*recipe, #[trigger] names@[k]@),
        decreases names.len() - i,
    {
        if entry_excludes_recipe(recipe, names[i].as_str()) {
            return false;
        }
        i = i + 1;
    }
    true
}

impl<A> GameDatabase<A> {
    /// The positions, in increasing order, of the recipes that the recipe
    /// entries `names` enable: some entry selects them and none excludes
    /// them.
    pub fn filter_recipes(&self, names: &Vec<String>) -> (r: Vec<RecipeId>)
        ensures
            forall|k: int|
                0 <= k < r@.len() ==> r@[k] < self.recipes@.len() && recipe_enabled_by(
                    self.recipes@[r@[k] as int],
                    names@,
                ),
            forall|k: int, l: int| 0 <= k < l < r@.len() ==> r@[k] < r@[l],
            forall|i: int|
                0 <= i < self.recipes@.len() && recipe_enabled_by(self.recipes@[i], names@)
                    ==> r@.contains(i as RecipeId),
    {
        let mut r: Vec<RecipeId> = Vec::new();
        let mut i: usize = 0;
        while i < self.recipes.len()
            invariant
                i <= self.recipes@.len(),
                forall|k: int|
                    0 <= k < r@.len() ==> r@[k] < i && recipe_enabled_by(
                        self.recipes@[r@[k] as int],
                        names@,
                    ),
                forall|k: int, l: int| 0 <= k < l < r@.len() ==> r@[k] < r@[l],
                forall|c: int|
                    0 <= c < i && recipe_enabled_by(self.recipes@[c], names@) ==> r@.contains(
                        c as RecipeId,
                    ),
            decreases self.recipes.len() - i,
        {
            let recipe = &self.recipes[i];
            if names_enable(names, recipe) {
                let ghost before = r@;
                r.push(i);
                proof {
                    assert forall|c: int|
                        0 <= c < i + 1 && recipe_enabled_by(
                            self.recipes@[c],
                            names@,
                        ) implies r@.contains(c as RecipeId) by {
                        if c < i {
                            let k = choose|k: int| 0 <= k < before.len() && before[k] == c as RecipeId;
                            assert(r@[k] == c as RecipeId);
                        } else {
                            assert(r@[before.len() as int] == c as RecipeId);
                        }
                    }
                }
            }
            i = i + 1;
        }
        r
    }
}


/// The first answering item is the one `answering_item` names.
proof fn lemma_answering_item(items: Seq<Item>, query: Seq<char>, i: int)
    requires
        0 <= i < items.len(),
        item_answers_to(items[i], query),
        forall|j: int| 0 <= j < i ==> !item_answers_to(items[j], query),
    ensures
        answering_item(items, query) == i,
        some_item_answers(items, query),
{
    let c = answering_item(items, query);
    assert(0 <= c < items.len() && item_answers_to(items[c], query) && forall|j: int|
        0 <= j < c ==> !item_answers_to(items[j], query));
    if c < i {
        assert(!item_answers_to(items[c], query));
    }
    if i < c {
        assert(!item_answers_to(items[i], query));
    }
}

/// The map after inserting one more entry.
pub(crate) proof fn lemma_insert_all_push<K, V>(m: Map<K, V>, entries: Seq<(K, V)>, i: int)
    requires
        0 <= i < entries.len(),
    ensures
        insert_all(m, entries.take(i + 1)) == insert_all(m, entries.take(i)).insert(
            entries[i].0,
            entries[i].1,
        ),
{
    assert(entries.take(i + 1).drop_last() =~= entries.take(i));
}

/// The keys after inserting a key below `bound` into pairs whose keys are
/// below `bound` are below `bound`.
proof fn lemma_insert_pair_bound<V>(before: Seq<(ItemId, V)>, after: Seq<(ItemId, V)>, key: ItemId, value: V, bound: nat)
    requires
        pairs_map(after) == pairs_map(before).insert(key, value),
        key < bound,
    ensures
        (forall|k: int| 0 <= k < before.len() ==> #[trigger] before[k].0 < bound) ==> forall|k: int|
            0 <= k < after.len() ==> #[trigger] after[k].0 < bound,
{
    if forall|k: int| 0 <= k < before.len() ==> #[trigger] before[k].0 < bound {
        assert forall|k: int| 0 <= k < after.len() implies #[trigger] after[k].0 < bound by {
            assert(pairs_map(after).dom().contains(after[k].0));
            if after[k].0 != key {
                let w = choose|w: int| 0 <= w < before.len() && before[w].0 == after[k].0;
                assert(before[w].0 < bound);
            }
        }
    }
}

/// Resolves the requested outputs, checking each in order.
#[verifier::rlimit(30)]
fn resolve_outputs<A: Copy>(db: &GameDatabase<A>, entries: &Vec<(String, OutputAmount<A>)>) -> (r:
    Result<Vec<(ItemId, OutputAmount<A>)>, PlanError>)
    ensures
        match r {
            Ok(v) => {
                &&& first_some(output_checks(db.items@, entries@)) is None
                &&& keys_distinct(v@)
                &&& pairs_map(v@) == insert_all(Map::empty(), resolve_names(db.items@, entries@))
                &&& forall|k: int| 0 <= k < v@.len() ==> #[trigger] v@[k].0 < db.items@.len()
            },
            Err(e) => first_some(output_checks(db.items@, entries@)) == Some(e@),
        },
{
    let ghost checks = output_checks(db.items@, entries@);
    let mut outputs: Vec<(ItemId, OutputAmount<A>)> = Vec::new();
    let mut i: usize = 0;
    while i < entries.len()
        invariant
            checks == output_checks(db.items@, entries@),
            i <= entries@.len(),
            forall|j: int| 0 <= j < i ==> checks[j] is None,
            keys_distinct(outputs@),
            pairs_map(outputs@) == insert_all(
                Map::empty(),
                resolve_names(db.items@, entries@).take(i as int),
            ),
            forall|k: int| 0 <= k < outputs@.len() ==> #[trigger] outputs@[k].0 < db.items@.len(),
        decreases entries.len() - i,
    {
        let name = &entries[i].0;
        let value = entries[i].1;
        let found = db.find_item(name.as_str());
        if found.is_none() {
            proof {
                lemma_first_some_at(checks, i as int);
            }
            return Err(PlanError::UnknownItem(name.clone()));
        }
        let item_id = found.unwrap();
        proof {
            lemma_answering_item(db.items@, name@, item_id as int);
        }
        let item = db.item(item_id);
        if item.resource {
            proof {
                lemma_first_some_at(checks, i as int);
            }
            return Err(PlanError::UnexpectedResourceInOutputs(item.name.clone()));
        }
        match value {
            OutputAmount::PerMinute(a) => {
                if a.sign == Sign::Negative || a.sign == Sign::Zero {
                    proof {
                        lemma_first_some_at(checks, i as int);
                    }
                    return Err(PlanError::InvalidOutputAmount(name.clone()));
                }
            },
            OutputAmount::Maximize => {},
        }
        proof {
            lemma_insert_all_push(Map::empty(), resolve_names(db.items@, entries@), i as int);
        }
        let ghost before = outputs@;
        insert_pair(&mut outputs, item_id, value);
        proof {
            lemma_insert_pair_bound(before, outputs@, item_id, value, db.items@.len());
        }
        i = i + 1;
    }
    proof {
        assert(resolve_names(db.items@, entries@).take(entries@.len() as int) =~= resolve_names(
            db.items@,
            entries@,
        ));
        lemma_first_some_none(checks);
    }
    Ok(outputs)
}

/// Resolves the given inputs, checking each in order, over a copy of the
/// database's resource limits.
fn resolve_inputs<A: Copy>(db: &GameDatabase<A>, entries: &Vec<(String, Amount<A>)>) -> (r: Result<
    Vec<(ItemId, Amount<A>)>,
    PlanError,
>)
    requires
        keys_distinct(db.resource_limits@),
    ensures
        match r {
            Ok(v) => {
                &&& first_some(input_checks(db.items@, entries@)) is None
                &&& keys_distinct(v@)
                &&& pairs_map(v@) == insert_all(
                    pairs_map(db.resource_limits@),
                    resolve_names(db.items@, entries@),
                )
                &&& (forall|k: int|
                    0 <= k < db.resource_limits@.len() ==> #[trigger] db.resource_limits@[k].0
                        < db.items@.len()) ==> forall|k: int|
                    0 <= k < v@.len() ==> #[trigger] v@[k].0 < db.items@.len()
            },
            Err(e) => first_some(input_checks(db.items@, entries@)) == Some(e@),
        },
{
    let ghost checks = input_checks(db.items@, entries@);
    let mut inputs: Vec<(ItemId, Amount<A>)> = Vec::new();
    let mut k: usize = 0;
    while k < db.resource_limits.len()
        invariant
            k <= db.resource_limits@.len(),
            inputs@ == db.resource_limits@.take(k as int),
        decreases db.resource_limits.len() - k,
    {
        inputs.push(db.resource_limits[k]);
        proof {
            assert(inputs@ =~= db.resource_limits@.take(k + 1));
        }
        k = k + 1;
    }
    proof {
        assert(inputs@ =~= db.resource_limits@);
    }
    let mut i: usize = 0;
    while i < entries.len()
        invariant
            checks == input_checks(db.items@, entries@),
            i <= entries@.len(),
            forall|j: int| 0 <= j < i ==> checks[j] is None,
            keys_distinct(inputs@),
            pairs_map(inputs@) == insert_all(
                pairs_map(db.resource_limits@),
                resolve_names(db.items@, entries@).take(i as int),
            ),
            (forall|k: int|
                0 <= k < db.resource_limits@.len() ==> #[trigger] db.resource_limits@[k].0
                    < db.items@.len()) ==> forall|k: int|
                0 <= k < inputs@.len() ==> #[trigger] inputs@[k].0 < db.items@.len(),
        decreases entries.len() - i,
    {
        let name = &entries[i].0;
        let value = entries[i].1;
        let found = db.find_item(name.as_str());
        if found.is_none() {
            proof {
                lemma_first_some_at(checks, i as int);
            }
            return Err(PlanError::UnknownItem(name.clone()));
        }
        let item_id = found.unwrap();
        proof {
            lemma_answering_item(db.items@, name@, item_id as int);
        }
        if value.sign == Sign::Negative {
            proof {
                lemma_first_some_at(checks, i as int);
            }
            return Err(PlanError::InvalidInputAmount(name.clone()));
        }
        proof {
            lemma_insert_all_push(
                pairs_map(db.resource_limits@),
                resolve_names(db.items@, entries@),
                i as int,
            );
        }
        let ghost before = inputs@;
        insert_pair(&mut inputs, item_id, value);
        proof {
            lemma_insert_pair_bound(before, inputs@, item_id, value, db.items@.len());
        }
        i = i + 1;
    }
    proof {
        assert(resolve_names(db.items@, entries@).take(entries@.len() as int) =~= resolve_names(
            db.items@,
            entries@,
        ));
        lemma_first_some_none(checks);
    }
    Ok(inputs)
}

/// Checks that every name is the exact key or name of a recipe.
fn check_recipe_names<A>(recipes: &Vec<Recipe<A>>, names: &Vec<String>) -> (r: Result<(), PlanError>)
    ensures
        match r {
            Ok(_) => first_some(recipe_checks(recipes@, names@)) is None,
            Err(e) => first_some(recipe_checks(recipes@, names@)) == Some(e@),
        },
{
    let ghost checks = recipe_checks(recipes@, names@);
    let mut i: usize = 0;
    while i < names.len()
        invariant
            checks == recipe_checks(recipes@, names@),
            i <= names@.len(),
            forall|j: int| 0 <= j < i ==> checks[j] is None,
        decreases names.len() - i,
    {
        if !recipe_entry_known(recipes, &names[i]) {
            proof {
                lemma_first_some_at(checks, i as int);
            }
            return Err(PlanError::UnknownRecipe(names[i].clone()));
        }
        i = i + 1;
    }
    proof {
        lemma_first_some_none(checks);
    }
    Ok(())
}

impl<A> PlanConfig<A> {
    /// Validates a plan request against the database and resolves its item
    /// and recipe names.
    ///
    /// The outputs are checked in order: each must name an item (by name,
    /// ignoring ASCII case, or by key), the item must not be a resource,
    /// and a rate must be greater than zero. Then the inputs: each must name
    /// an item and must not be negative. Then each recipe entry: `base`
    /// selects every recipe that is not an alternate, `alt` every alternate
    /// recipe, `exclude:` followed by a recipe's exact key or name excludes
    /// that recipe, and any other entry must be the exact key or name of a
    /// recipe, which it selects. The first failing check is the error.
    ///
    /// The inputs start from the database's resource limits; a given input
    /// replaces the limit of its item. The enabled recipes are those that
    /// some entry selects and no entry excludes.
    pub fn parse(config: PlanConfigDefinition<A>, game_db: Arc<GameDatabase<A>>) -> (r: Result<
        PlanConfig<A>,
        PlanError,
    >)
        where A: Copy
        requires
            database_refs_valid(*game_db),
        ensures
            match r {
                Ok(c) => {
                    &&& plan_request_error(*game_db, config) is None
                    &&& c.wf()
                    &&& c.game_db == game_db
                    &&& keys_distinct(c.outputs@)
                    &&& pairs_map(c.outputs@) == insert_all(
                        Map::empty(),
                        resolve_names(game_db.items@, config.outputs@),
                    )
                    &&& keys_distinct(c.inputs@)
                    &&& pairs_map(c.inputs@) == insert_all(
                        pairs_map(game_db.resource_limits@),
                        resolve_names(game_db.items@, config.inputs@),
                    )
                    &&& forall|k: int|
                        0 <= k < c.enabled_recipes@.len() ==> c.enabled_recipes@[k]
                            < game_db.recipes@.len() && recipe_enabled_by(
                            game_db.recipes@[c.enabled_recipes@[k] as int],
                            config.recipes@,
                        )
                    &&& forall|k: int, l: int|
                        0 <= k < l < c.enabled_recipes@.len() ==> c.enabled_recipes@[k]
                            < c.enabled_recipes@[l]
                    &&& forall|i: int|
                        0 <= i < game_db.recipes@.len() && recipe_enabled_by(
                            game_db.recipes@[i],
                            config.recipes@,
                        ) ==> c.enabled_recipes@.contains(i as RecipeId)
                },
                Err(e) => plan_request_error(*game_db, config) == Some(e@),
            },
    {
        let db: &GameDatabase<A> = &*game_db;
        let ghost outs = output_checks(db.items@, config.outputs@);
        let ghost ins = input_checks(db.items@, config.inputs@);
        let ghost recs = recipe_checks(db.recipes@, config.recipes@);
        proof {
            lemma_first_some_concat(outs + ins, recs);
            lemma_first_some_concat(outs, ins);
        }
        let outputs = match resolve_outputs(db, &config.outputs) {
            Ok(v) => v,
            Err(e) => return Err(e),
        };
        let inputs = match resolve_inputs(db, &config.inputs) {
            Ok(v) => v,
            Err(e) => return Err(e),
        };
        match check_recipe_names(&db.recipes, &config.recipes) {
            Ok(_) => {},
            Err(e) => return Err(e),
        }
        let enabled_recipes = db.filter_recipes(&config.recipes);
        Ok(PlanConfig { inputs, outputs, game_db, enabled_recipes })
    }
}

} // verus!

verus! {

/// Whether the references inside the database point at existing entries.
pub open spec fn database_refs_valid<A>(db: GameDatabase<A>) -> bool {
    &&& forall|r: int|
        #![trigger db.recipes@[r]]
        0 <= r < db.recipes@.len() ==> {
            &&& db.recipes@[r].building < db.buildings@.len()
            &&& forall|k: int|
                0 <= k < db.recipes@[r].inputs@.len() ==> #[trigger] db.recipes@[r].inputs@[k].item
                    < db.items@.len()
            &&& forall|k: int|
                0 <= k < db.recipes@[r].outputs@.len() ==> #[trigger] db.recipes@[r].outputs@[k].item
                    < db.items@.len()
        }
    &&& forall|b: int|
        #![trigger db.buildings@[b]]
        0 <= b < db.buildings@.len() ==> (db.buildings@[b] matches crate::game::Building::ItemProducer(
            ip,
        ) ==> ip.output.item < db.items@.len())
    &&& keys_distinct(db.resource_limits@)
    &&& forall|k: int|
        0 <= k < db.resource_limits@.len() ==> #[trigger] db.resource_limits@[k].0 < db.items@.len()
}

/// Whether recipe `r` offers `item`: the first output when the item is on
/// the by-product blacklist, any output otherwise.
pub open spec fn recipe_offers<A>(db: GameDatabase<A>, r: RecipeId, item: ItemId) -> bool {
    if db.by_product_blacklist@.contains(item) {
        db.recipes@[r as int].primary_output_is(item)
    } else {
        db.recipes@[r as int].produces(item)
    }
}

/// The recipes of `enabled` that offer `item`, in the order of `enabled`.
pub open spec fn offering_recipes<A>(db: GameDatabase<A>, enabled: Seq<RecipeId>, item: ItemId) -> Seq<
    RecipeId,
>
    decreases enabled.len(),
{
    if enabled.len() == 0 {
        Seq::empty()
    } else {
        let rest = offering_recipes(db, enabled.drop_last(), item);
        if recipe_offers(db, enabled.last(), item) {
            rest.push(enabled.last())
        } else {
            rest
        }
    }
}

/// The recipes that offer an item are exactly the enabled recipes that
/// list it: among their outputs at any position, or, for an item on the
/// by-product blacklist, as their first output.
pub proof fn lemma_offering_recipes_exactly<A>(db: GameDatabase<A>, enabled: Seq<RecipeId>, item: ItemId, x: RecipeId)
    ensures
        offering_recipes(db, enabled, item).contains(x) <==> (enabled.contains(x) && (if db.by_product_blacklist@.contains(item) {
            db.recipes@[x as int].outputs@.len() > 0 && db.recipes@[x as int].outputs@[0].item == item
        } else {
            exists|j: int|
                0 <= j < db.recipes@[x as int].outputs@.len() && db.recipes@[x as int].outputs@[j].item == item
        })),
    decreases enabled.len(),
{
    if enabled.len() > 0 {
        let rest = enabled.drop_last();
        lemma_offering_recipes_exactly(db, rest, item, x);
        let out = offering_recipes(db, enabled, item);
        let kept = offering_recipes(db, rest, item);
        if enabled.contains(x) && x != enabled.last() {
            let k = choose|k: int| 0 <= k < enabled.len() && enabled[k] == x;
            assert(k < rest.len());
            assert(rest[k] == x);
        }
        if rest.contains(x) {
            let k = choose|k: int| 0 <= k < rest.len() && rest[k] == x;
            assert(enabled[k] == x);
        }
        if kept.contains(x) && recipe_offers(db, enabled.last(), item) {
            let k = choose|k: int| 0 <= k < kept.len() && kept[k] == x;
            assert(out[k] == x);
        }
        if out.contains(x) && recipe_offers(db, enabled.last(), item) && x != enabled.last() {
            let k = choose|k: int| 0 <= k < out.len() && out[k] == x;
            assert(k < kept.len());
            assert(kept[k] == x);
        }
        if recipe_offers(db, enabled.last(), item) && x == enabled.last() {
            assert(out[kept.len() as int] == x);
        }
        assert(enabled[enabled.len() - 1] == enabled.last());
    }
}

/// Every recipe that offers an item is enabled and offers it.
pub proof fn lemma_offering_recipes<A>(db: GameDatabase<A>, enabled: Seq<RecipeId>, item: ItemId)
    ensures
        forall|k: int|
            0 <= k < offering_recipes(db, enabled, item).len() ==> enabled.contains(
                #[trigger] offering_recipes(db, enabled, item)[k],
            ) && recipe_offers(db, offering_recipes(db, enabled, item)[k], item),
    decreases enabled.len(),
{
    if enabled.len() > 0 {
        lemma_offering_recipes(db, enabled.drop_last(), item);
        let rest = offering_recipes(db, enabled.drop_last(), item);
        assert forall|k: int| 0 <= k < rest.len() implies enabled.contains(#[trigger] rest[k]) by {
            let w = choose|w: int| 0 <= w < enabled.drop_last().len() && enabled.drop_last()[w] == rest[k];
            assert(enabled[w] == rest[k]);
        }
        assert(enabled[enabled.len() - 1] == enabled.last());
    }
}

impl<A> PlanConfig<A> {
    /// Whether the request is well formed: every position points at an
    /// existing entry, and no item appears twice among the inputs or among
    /// the outputs.
    pub open spec fn wf(self) -> bool {
        &&& database_refs_valid(*self.game_db)
        &&& forall|k: int|
            0 <= k < self.enabled_recipes@.len() ==> #[trigger] self.enabled_recipes@[k]
                < self.game_db.recipes@.len()
        &&& keys_distinct(self.outputs@)
        &&& forall|k: int|
            0 <= k < self.outputs@.len() ==> #[trigger] self.outputs@[k].0 < self.game_db.items@.len()
        &&& keys_distinct(self.inputs@)
        &&& forall|k: int|
            0 <= k < self.inputs@.len() ==> #[trigger] self.inputs@[k].0 < self.game_db.items@.len()
    }

    /// The input amount recorded for `item`, if any.
    pub open spec fn input_of(self, item: ItemId) -> Option<Amount<A>> {
        if pairs_map(self.inputs@).dom().contains(item) {
            Some(pairs_map(self.inputs@)[item])
        } else {
            None
        }
    }

    /// The output amount requested for `item`, if any.
    pub open spec fn output_of(self, item: ItemId) -> Option<OutputAmount<A>> {
        if pairs_map(self.outputs@).dom().contains(item) {
            Some(pairs_map(self.outputs@)[item])
        } else {
            None
        }
    }

    /// Whether a positive amount of `item` is available as an input.
    pub open spec fn spec_has_input(self, item: ItemId) -> bool {
        self.input_of(item) matches Some(a) && a.sign is Positive
    }

    /// Whether no amount of `item` is available: the item has no input, or
    /// an input that compares equal to zero.
    pub open spec fn input_is_zero(self, item: ItemId) -> bool {
        self.input_of(item) matches Some(a) ==> a.sign is Zero
    }

    /// The enabled recipes that offer `item`, in the order they are enabled.
    pub fn find_recipes_by_output(&self, item: ItemId) -> (r: Vec<RecipeId>)
        requires
            self.wf(),
        ensures
            r@ == offering_recipes(*self.game_db, self.enabled_recipes@, item),
            forall|x: RecipeId|
                r@.contains(x) <==> (self.enabled_recipes@.contains(x) && (if self.game_db.by_product_blacklist@.contains(item) {
            self.game_db.recipes@[x as int].outputs@.len() > 0 && self.game_db.recipes@[x as int].outputs@[0].item == item
        } else {
            exists|j: int|
                0 <= j < self.game_db.recipes@[x as int].outputs@.len() && self.game_db.recipes@[x as int].outputs@[j].item == item
        })),
    {
        let db: &GameDatabase<A> = &*self.game_db;
        let mut blacklisted = false;
        let mut k: usize = 0;
        while k < db.by_product_blacklist.len()
            invariant
                k <= db.by_product_blacklist@.len(),
                blacklisted == exists|j: int| 0 <= j < k && db.by_product_blacklist@[j] == item,
            decreases db.by_product_blacklist.len() - k,
        {
            if db.by_product_blacklist[k] == item {
                blacklisted = true;
            }
            k = k + 1;
        }
        let mut r: Vec<RecipeId> = Vec::new();
        let mut i: usize = 0;
        while i < self.enabled_recipes.len()
            invariant
                self.wf(),
                db == &*self.game_db,
                blacklisted == db.by_product_blacklist@.contains(item),
                i <= self.enabled_recipes@.len(),
                r@ == offering_recipes(*db, self.enabled_recipes@.take(i as int), item),
            decreases self.enabled_recipes.len() - i,
        {
            let id = self.enabled_recipes[i];
            let recipe = db.recipe(id);
            let offers = if blacklisted {
                recipe.is_primary_output(item)
            } else {
                recipe.has_output_item(item)
            };
            proof {
                assert(self.enabled_recipes@.take(i + 1).drop_last() =~= self.enabled_recipes@.take(
                    i as int,
                ));
            }
            if offers {
                r.push(id);
            }
            i = i + 1;
        }
        proof {
            assert(self.enabled_recipes@.take(i as int) =~= self.enabled_recipes@);
        }
        proof {
            assert forall|x: RecipeId|
                r@.contains(x) <==> (
                self.enabled_recipes@.contains(x) && (if self.game_db.by_product_blacklist@.contains(item) {
            self.game_db.recipes@[x as int].outputs@.len() > 0 && self.game_db.recipes@[x as int].outputs@[0].item == item
        } else {
            exists|j: int|
                0 <= j < self.game_db.recipes@[x as int].outputs@.len() && self.game_db.recipes@[x as int].outputs@[j].item == item
        })) by {
                lemma_offering_recipes_exactly(*self.game_db, self.enabled_recipes@, item, x);
            }
        }
        r
    }

    /// The input amount recorded for `item`; `None` stands for no input.
    pub fn find_input(&self, item: ItemId) -> (r: Option<Amount<A>>)
        where A: Copy
        requires
            keys_distinct(self.inputs@),
        ensures
            r == self.input_of(item),
    {
        let mut i: usize = 0;
        while i < self.inputs.len()
            invariant
                i <= self.inputs@.len(),
                keys_distinct(self.inputs@),
                forall|j: int| 0 <= j < i ==> self.inputs@[j].0 != item,
            decreases self.inputs.len() - i,
        {
            if self.inputs[i].0 == item {
                proof {
                    let m = pairs_map(self.inputs@);
                    assert(m.dom().contains(item));
                    let w = choose|w: int| 0 <= w < self.inputs@.len() && self.inputs@[w].0 == item;
                    assert(w == i);
                }
                return Some(self.inputs[i].1);
            }
            i = i + 1;
        }
        None
    }

    /// Whether a positive amount of `item` is available as an input.
    pub fn has_input(&self, item: ItemId) -> (r: bool)
        requires
            keys_distinct(self.inputs@),
        ensures
            r == self.spec_has_input(item),
    {
        let mut i: usize = 0;
        while i < self.inputs.len()
            invariant
                i <= self.inputs@.len(),
                keys_distinct(self.inputs@),
                forall|j: int| 0 <= j < i ==> self.inputs@[j].0 != item,
            decreases self.inputs.len() - i,
        {
            if self.inputs[i].0 == item {
                proof {
                    let m = pairs_map(self.inputs@);
                    assert(m.dom().contains(item));
                    let w = choose|w: int| 0 <= w < self.inputs@.len() && self.inputs@[w].0 == item;
                    assert(w == i);
                }
                return self.inputs[i].1.sign == Sign::Positive;
            }
            i = i + 1;
        }
        false
    }

    /// Whether no amount of `item` is available: no input is given for it,
    /// or one that compares equal to zero.
    pub fn has_zero_input(&self, item: ItemId) -> (r: bool)
        requires
            keys_distinct(self.inputs@),
        ensures
            r == self.input_is_zero(item),
    {
        let mut i: usize = 0;
        while i < self.inputs.len()
            invariant
                i <= self.inputs@.len(),
                keys_distinct(self.inputs@),
                forall|j: int| 0 <= j < i ==> self.inputs@[j].0 != item,
            decreases self.inputs.len() - i,
        {
            if self.inputs[i].0 == item {
                proof {
                    let m = pairs_map(self.inputs@);
                    assert(m.dom().contains(item));
                    let w = choose|w: int| 0 <= w < self.inputs@.len() && self.inputs@[w].0 == item;
                    assert(w == i);
                }
                return self.inputs[i].1.sign == Sign::Zero;
            }
            i = i + 1;
        }
        true
    }

    /// The output amount requested for `item`, if any.
    pub fn find_output(&self, item: ItemId) -> (r: Option<OutputAmount<A>>)
        where A: Copy
        requires
            keys_distinct(self.outputs@),
        ensures
            r == self.output_of(item),
    {
        let mut i: usize = 0;
        while i < self.outputs.len()
            invariant
                i <= self.outputs@.len(),
                keys_distinct(self.outputs@),
                forall|j: int| 0 <= j < i ==> self.outputs@[j].0 != item,
            decreases self.outputs.len() - i,
        {
            if self.outputs[i].0 == item {
                proof {
                    let m = pairs_map(self.outputs@);
                    assert(m.dom().contains(item));
                    let w = choose|w: int| 0 <= w < self.outputs@.len() && self.outputs@[w].0 == item;
                    assert(w == i);
                }
                return Some(self.outputs[i].1);
            }
            i = i + 1;
        }
        None
    }
}

} // verus!
