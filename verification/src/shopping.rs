//! The shopping-list reconciler: aggregates the quantities a batch of
//! recipes requires per ingredient name, compares them with what the
//! inventory holds, and reports each shortfall.
use vstd::prelude::*;

use crate::inventory::{on_hand, Inventory};
use crate::recipes::{find_recipe, has_id, RecipeStore};
use crate::text::{msg_recipe_missing, msg_required_overflow};
use crate::types::{Error, Ingredient, IngredientV};

verus! {

/// The views of a sequence of ingredients.
pub open spec fn ing_views(v: Seq<Ingredient>) -> Seq<IngredientV> {
    v.map_values(|x: Ingredient| x@)
}

/// The names of a sequence of ingredient views.
pub open spec fn names_seq(v: Seq<IngredientV>) -> Seq<Seq<char>> {
    v.map_values(|x: IngredientV| x.name)
}

/// Every identifier of the batch resolves to a stored recipe.
pub open spec fn all_found(s: Seq<crate::types::RecipeV>, ids: Seq<u64>) -> bool {
    forall|k: int| 0 <= k < ids.len() ==> has_id(s, ids[k])
}

/// The ingredient lists of the batch's resolved recipes, concatenated
/// in batch order; an identifier that resolves to nothing contributes
/// nothing.
pub open spec fn entries_of(s: Seq<crate::types::RecipeV>, ids: Seq<u64>) -> Seq<IngredientV>
    decreases ids.len(),
{
    if ids.len() == 0 {
        Seq::empty()
    } else {
        entries_of(s, ids.drop_last()) + (if has_id(s, ids.last()) {
            find_recipe(s, ids.last()).unwrap().ingredients
        } else {
            Seq::empty()
        })
    }
}

/// The total quantity the entries require of a name: the sum of the
/// quantities of every entry carrying it.
pub open spec fn required_total(entries: Seq<IngredientV>, name: Seq<char>) -> nat
    decreases entries.len(),
{
    if entries.len() == 0 {
        0
    } else {
        required_total(entries.drop_last(), name) + (if entries.last().name == name {
            entries.last().quantity as nat
        } else {
            0nat
        })
    }
}

/// The distinct names of the entries, in order of first appearance.
pub open spec fn names_of(entries: Seq<IngredientV>) -> Seq<Seq<char>>
    decreases entries.len(),
{
    if entries.len() == 0 {
        Seq::empty()
    } else {
        let prefix = names_of(entries.drop_last());
        if prefix.contains(entries.last().name) {
            prefix
        } else {
            prefix.push(entries.last().name)
        }
    }
}

/// Every per-name total fits in 64 bits.
pub open spec fn totals_fit(entries: Seq<IngredientV>) -> bool {
    forall|n: Seq<char>| required_total(entries, n) <= u64::MAX
}

/// Holds of a name whose required total exceeds what is on hand.
pub open spec fn short_pred(entries: Seq<IngredientV>, inv: Seq<IngredientV>) -> spec_fn(
    Seq<char>,
) -> bool {
    |n: Seq<char>| required_total(entries, n) > on_hand(inv, n)
}

/// The names the inventory cannot cover, in order of first appearance.
pub open spec fn needed_names(entries: Seq<IngredientV>, inv: Seq<IngredientV>) -> Seq<Seq<char>> {
    names_of(entries).filter(short_pred(entries, inv))
}

/// One aggregation step: appending an entry adds its quantity to its
/// name's total and leaves every other total unchanged.
proof fn lemma_push_one(p: Seq<IngredientV>, e: IngredientV, n: Seq<char>)
    ensures
        required_total(p.push(e), n) == required_total(p, n) + (if e.name == n {
            e.quantity as nat
        } else {
            0nat
        }),
{
    assert(p.push(e).drop_last() =~= p);
    assert(p.push(e).last() == e);
}

/// Appending an entry adds its name to the name list only when the name
/// is new.
proof fn lemma_names_push(p: Seq<IngredientV>, e: IngredientV)
    ensures
        names_of(p.push(e)) == (if names_of(p).contains(e.name) {
            names_of(p)
        } else {
            names_of(p).push(e.name)
        }),
{
    assert(p.push(e).drop_last() =~= p);
    assert(p.push(e).last() == e);
}

/// The name list never repeats a name.
proof fn lemma_names_distinct(entries: Seq<IngredientV>)
    ensures
        forall|i: int, j: int|
            0 <= i < j < names_of(entries).len() ==> names_of(entries)[i] != names_of(entries)[j],
    decreases entries.len(),
{
    if entries.len() > 0 {
        lemma_names_distinct(entries.drop_last());
        let prefix = names_of(entries.drop_last());
        if !prefix.contains(entries.last().name) {
            assert forall|i: int, j: int|
                0 <= i < j < names_of(entries).len() implies names_of(entries)[i] != names_of(
                entries,
            )[j] by {
                if j == names_of(entries).len() - 1 {
                    assert(names_of(entries)[i] == prefix[i]);
                    assert(!prefix.contains(entries.last().name));
                    assert(prefix[i] != entries.last().name);
                }
            }
        }
    }
}

/// A name that never appears among the entries requires nothing.
proof fn lemma_absent_zero(entries: Seq<IngredientV>, n: Seq<char>)
    requires
        !names_of(entries).contains(n),
    ensures
        required_total(entries, n) == 0,
    decreases entries.len(),
{
    if entries.len() > 0 {
        let prefix = names_of(entries.drop_last());
        assert(names_of(entries).contains(entries.last().name)) by {
            if prefix.contains(entries.last().name) {
                let i = choose|i: int|
                    0 <= i < prefix.len() && prefix[i] == entries.last().name;
                assert(names_of(entries)[i] == entries.last().name);
            } else {
                assert(names_of(entries).last() == entries.last().name);
            }
        }
        assert(!prefix.contains(n)) by {
            if prefix.contains(n) {
                let i = choose|i: int| 0 <= i < prefix.len() && prefix[i] == n;
                assert(names_of(entries)[i] == n);
            }
        }
        assert(n != entries.last().name);
        lemma_absent_zero(entries.drop_last(), n);
    }
}

/// Totals add over concatenation of entry sequences.
proof fn lemma_required_concat(a: Seq<IngredientV>, b: Seq<IngredientV>, n: Seq<char>)
    ensures
        required_total(a + b, n) == required_total(a, n) + required_total(b, n),
    decreases b.len(),
{
    if b.len() == 0 {
        assert(a + b =~= a);
    } else {
        assert((a + b).drop_last() =~= a + b.drop_last());
        assert((a + b).last() == b.last());
        lemma_required_concat(a, b.drop_last(), n);
    }
}

/// Entry lists add over concatenation of identifier batches.
proof fn lemma_entries_concat(s: Seq<crate::types::RecipeV>, ids1: Seq<u64>, ids2: Seq<u64>)
    ensures
        entries_of(s, ids1 + ids2) == entries_of(s, ids1) + entries_of(s, ids2),
    decreases ids2.len(),
{
    if ids2.len() == 0 {
        assert(ids1 + ids2 =~= ids1);
        assert(entries_of(s, ids1) + entries_of(s, ids2) =~= entries_of(s, ids1));
    } else {
        assert((ids1 + ids2).drop_last() =~= ids1 + ids2.drop_last());
        assert((ids1 + ids2).last() == ids2.last());
        lemma_entries_concat(s, ids1, ids2.drop_last());
        let tail = if has_id(s, ids2.last()) {
            find_recipe(s, ids2.last()).unwrap().ingredients
        } else {
            Seq::<IngredientV>::empty()
        };
        assert(entries_of(s, ids1) + entries_of(s, ids2.drop_last()) + tail =~= entries_of(s, ids1)
            + (entries_of(s, ids2.drop_last()) + tail));
        assert(entries_of(s, ids2.drop_last()) + tail == entries_of(s, ids2));
    }
}

/// A prefix of the batch never requires more of a name than the whole
/// batch does.
proof fn lemma_prefix_bound(
    s: Seq<crate::types::RecipeV>,
    ids: Seq<u64>,
    prefix: Seq<IngredientV>,
    rest: Seq<IngredientV>,
    n: Seq<char>,
)
    requires
        entries_of(s, ids) == prefix + rest,
    ensures
        required_total(prefix, n) <= required_total(entries_of(s, ids), n),
{
    lemma_required_concat(prefix, rest, n);
}

/// Sufficiency gives an empty list: when the inventory covers the
/// required total of every name, no name is short, so the shopping list
/// has no entries — never a list of zero-quantity ones.
pub proof fn lemma_sufficient_inventory(entries: Seq<IngredientV>, inv: Seq<IngredientV>)
    requires
        forall|n: Seq<char>| #[trigger] required_total(entries, n) <= on_hand(inv, n),
    ensures
        needed_names(entries, inv).len() == 0,
{
    let pred = short_pred(entries, inv);
    let need = names_of(entries).filter(pred);
    if need.len() > 0 {
        Seq::lemma_filter_pred(names_of(entries), pred, 0);
        assert(pred(need[0]));
        assert(required_total(entries, need[0]) <= on_hand(inv, need[0]));
    }
}

/// Looks up every recipe of the batch, sums the quantity each ingredient
/// name requires across them — a repeated identifier counts again — and
/// returns one entry per name the inventory cannot cover, holding the
/// shortfall.  Sufficiency yields an empty list.  Fails with `NotFound`
/// when an identifier resolves to nothing, naming it, or when a required
/// total does not fit in 64 bits; the inventory and store are never
/// changed.
pub fn generate_shopping_list(store: &RecipeStore, inventory: &Inventory, recipes: Vec<u64>) -> (r:
    Result<Vec<Ingredient>, Error>)
    requires
        store.wf(),
        inventory.wf(),
    ensures
        r is Ok <==> (all_found(store@, recipes@) && totals_fit(entries_of(store@, recipes@))),
        r matches Err(e) ==> e is NotFound,
        r matches Ok(out) ==> {
            let entries = entries_of(store@, recipes@);
            let need = needed_names(entries, inventory@);
            &&& out@.len() == need.len()
            &&& forall|k: int|
                0 <= k < need.len() ==> {
                    &&& (#[trigger] out@[k])@.name == need[k]
                    &&& out@[k]@.quantity == required_total(entries, need[k]) - on_hand(
                        inventory@,
                        need[k],
                    )
                    &&& out@[k]@.quantity > 0
                    &&& out@[k]@.id == 0
                    &&& out@[k]@.unit == Seq::<char>::empty()
                }
        },
{
    let ghost entries_full = entries_of(store@, recipes@);
    let n = recipes.len();
    let mut acc: Vec<Ingredient> = Vec::new();
    let mut i: usize = 0;
    proof {
        assert(entries_of(store@, recipes@.subrange(0, 0)) =~= Seq::<IngredientV>::empty());
        assert(names_of(Seq::<IngredientV>::empty()) =~= Seq::<Seq<char>>::empty());
        assert(ing_views(acc@) =~= Seq::<IngredientV>::empty());
    }
    while i < n
        invariant
            store.wf(),
            inventory.wf(),
            entries_full == entries_of(store@, recipes@),
            n == recipes.len(),
            0 <= i <= n,
            forall|t: int| 0 <= t < i ==> has_id(store@, recipes@[t]),
            agg_ok(ing_views(acc@), entries_of(store@, recipes@.subrange(0, i as int))),
        decreases n - i,
    {
        let id = recipes[i];
        let rec = match store._get_recipe(&id) {
            Some(rec) => rec,
            None => {
                proof {
                    assert(!has_id(store@, recipes@[i as int]));
                }
                return Err(Error::NotFound { msg: msg_recipe_missing(id) });
            },
        };
        let ghost done = entries_of(store@, recipes@.subrange(0, i as int));
        let ghost ings = rec@.ingredients;
        proof {
            assert(recipes@.subrange(0, i as int + 1).drop_last() =~= recipes@.subrange(
                0,
                i as int,
            ));
            assert(recipes@.subrange(0, i as int + 1).last() == recipes@[i as int]);
            assert(entries_of(store@, recipes@.subrange(0, i as int + 1)) == done + ings);
        }
        let m = rec.ingredients.len();
        let mut j: usize = 0;
        proof {
            assert(done + ings.subrange(0, 0) =~= done);
        }
        while j < m
            invariant
                store.wf(),
                inventory.wf(),
                m == rec.ingredients.len(),
                ings == rec@.ingredients,
                has_id(store@, recipes@[i as int]),
                rec@ == find_recipe(store@, recipes@[i as int]).unwrap(),
                0 <= j <= m,
                entries_full == entries_of(store@, recipes@),
                n == recipes.len(),
                0 <= i < n,
                done == entries_of(store@, recipes@.subrange(0, i as int)),
                entries_of(store@, recipes@.subrange(0, i as int + 1)) == done + ings,
                agg_ok(ing_views(acc@), done + ings.subrange(0, j as int)),
            decreases m - j,
        {
            let ghost processed = done + ings.subrange(0, j as int);
            let e = &rec.ingredients[j];
            proof {
                assert(ings[j as int] == e@);
                assert(processed.push(e@) =~= done + ings.subrange(0, j as int + 1));
                lemma_names_distinct(processed);
            }
            let a = acc.len();
            let mut t: usize = 0;
            let mut merged = false;
            while t < a && !merged
                invariant
                    a == acc.len(),
                    0 <= t <= a,
                    merged ==> t < a && ing_views(acc@)[t as int].name == e@.name,
                    !merged ==> forall|u: int| 0 <= u < t ==> ing_views(acc@)[u].name != e@.name,
                decreases a - t + (if merged { 0int } else { 1int }),
            {
                if acc[t].name == e.name {
                    merged = true;
                } else {
                    t = t + 1;
                }
            }
            let ghost accv = ing_views(acc@);
            if merged {
                proof {
                    assert(accv[t as int].name == e@.name);
                    assert(names_of(processed)[t as int] == e@.name);
                    assert(names_of(processed).contains(e@.name));
                    lemma_names_push(processed, e@);
                    lemma_push_one(processed, e@, e@.name);
                }
                if e.quantity > u64::MAX - acc[t].quantity {
                    proof {
                        assert(required_total(processed.push(e@), e@.name) > u64::MAX);
                        lemma_split_point(store@, recipes@, i as int, j as int, ings);
                        let rest = ings.subrange(j as int + 1, ings.len() as int) + entries_of(
                            store@,
                            recipes@.subrange(i as int + 1, recipes@.len() as int),
                        );
                        assert(entries_full == (done + ings.subrange(0, j as int + 1)) + rest);
                        assert(processed.push(e@) == done + ings.subrange(0, j as int + 1));
                        lemma_prefix_bound(store@, recipes@, processed.push(e@), rest, e@.name);
                        assert(!totals_fit(entries_full));
                    }
                    return Err(Error::NotFound { msg: msg_required_overflow(&e.name) });
                }
                let grown = Ingredient {
                    id: acc[t].id,
                    name: acc[t].name.clone(),
                    quantity: acc[t].quantity + e.quantity,
                    unit: acc[t].unit.clone(),
                };
                acc[t] = grown;
                proof {
                    assert(ing_views(acc@) =~= accv.update(
                        t as int,
                        IngredientV {
                            id: accv[t as int].id,
                            name: accv[t as int].name,
                            quantity: (accv[t as int].quantity + e@.quantity) as u64,
                            unit: accv[t as int].unit,
                        },
                    ));
                    assert forall|k: int| 0 <= k < ing_views(acc@).len() implies (#[trigger] ing_views(
                        acc@,
                    )[k]).quantity as nat == required_total(
                        processed.push(e@),
                        ing_views(acc@)[k].name,
                    ) by {
                        lemma_push_one(processed, e@, ing_views(acc@)[k].name);
                        if k != t as int {
                            assert(ing_views(acc@)[k] == accv[k]);
                            assert(accv[k].name != e@.name);
                        }
                    }
                    assert(agg_ok(ing_views(acc@), processed.push(e@)));
                }
            } else {
                proof {
                    assert forall|idx: int| 0 <= idx < names_of(processed).len() implies names_of(
                        processed,
                    )[idx] != e@.name by {
                        assert(accv[idx].name != e@.name);
                    }
                    assert(!names_of(processed).contains(e@.name));
                    lemma_names_push(processed, e@);
                    lemma_absent_zero(processed, e@.name);
                    lemma_push_one(processed, e@, e@.name);
                }
                let fresh = Ingredient {
                    id: 0,
                    name: e.name.clone(),
                    quantity: e.quantity,
                    unit: String::new(),
                };
                acc.push(fresh);
                proof {
                    assert(ing_views(acc@) =~= accv.push(
                        IngredientV {
                            id: 0,
                            name: e@.name,
                            quantity: e@.quantity,
                            unit: Seq::<char>::empty(),
                        },
                    ));
                    assert forall|k: int| 0 <= k < ing_views(acc@).len() implies (#[trigger] ing_views(
                        acc@,
                    )[k]).quantity as nat == required_total(
                        processed.push(e@),
                        ing_views(acc@)[k].name,
                    ) by {
                        lemma_push_one(processed, e@, ing_views(acc@)[k].name);
                        if k < accv.len() {
                            assert(ing_views(acc@)[k] == accv[k]);
                            assert(accv[k].name != e@.name);
                        }
                    }
                    assert(agg_ok(ing_views(acc@), processed.push(e@)));
                }
            }
            j = j + 1;
        }
        proof {
            assert(done + ings.subrange(0, m as int) =~= done + ings);
            assert(recipes@.subrange(0, i as int).push(recipes@[i as int]) =~= recipes@.subrange(
                0,
                i as int + 1,
            ));
        }
        i = i + 1;
    }
    proof {
        assert(recipes@.subrange(0, n as int) =~= recipes@);
        assert(agg_ok(ing_views(acc@), entries_full));
        lemma_names_distinct(entries_full);
        assert forall|nm: Seq<char>| required_total(entries_full, nm) <= u64::MAX by {
            if names_of(entries_full).contains(nm) {
                let k = choose|k: int|
                    0 <= k < names_of(entries_full).len() && names_of(entries_full)[k] == nm;
                assert(ing_views(acc@)[k].name == nm);
                assert(ing_views(acc@)[k].quantity as nat == required_total(entries_full, nm));
            } else {
                lemma_absent_zero(entries_full, nm);
            }
        }
    }
    let ghost names = names_of(entries_full);
    let ghost pred = short_pred(entries_full, inventory@);
    let a = acc.len();
    let mut out: Vec<Ingredient> = Vec::new();
    let mut k: usize = 0;
    proof {
        reveal(Seq::filter);
        assert(names_seq(ing_views(out@)) =~= names.subrange(0, 0).filter(pred));
    }
    while k < a
        invariant
            inventory.wf(),
            a == acc.len(),
            0 <= k <= a,
            names == names_of(entries_full),
            pred == short_pred(entries_full, inventory@),
            agg_ok(ing_views(acc@), entries_full),
            names_seq(ing_views(out@)) == names.subrange(0, k as int).filter(pred),
            forall|t: int|
                0 <= t < out@.len() ==> {
                    &&& (#[trigger] out@[t])@.quantity as nat == required_total(
                        entries_full,
                        out@[t]@.name,
                    ) - on_hand(inventory@, out@[t]@.name)
                    &&& out@[t]@.quantity > 0
                    &&& out@[t]@.id == 0
                    &&& out@[t]@.unit == Seq::<char>::empty()
                },
        decreases a - k,
    {
        let ghost step = names.subrange(0, k as int + 1);
        proof {
            assert(step.drop_last() =~= names.subrange(0, k as int));
            assert(step.last() == names[k as int]);
            assert(ing_views(acc@)[k as int].name == names[k as int]);
        }
        let ghost before = ing_views(out@);
        let oh = inventory.quantity_of(&acc[k].name);
        if oh < acc[k].quantity {
            let entry = Ingredient {
                id: 0,
                name: acc[k].name.clone(),
                quantity: acc[k].quantity - oh,
                unit: String::new(),
            };
            out.push(entry);
            proof {
                assert(ing_views(out@) =~= before.push(
                    IngredientV {
                        id: 0,
                        name: names[k as int],
                        quantity: (ing_views(acc@)[k as int].quantity - oh) as u64,
                        unit: Seq::<char>::empty(),
                    },
                ));
                assert(names_seq(ing_views(out@)) =~= names_seq(before).push(names[k as int]));
                assert(pred(names[k as int]));
            }
        } else {
            proof {
                assert(!pred(names[k as int]));
            }
        }
        proof {
            reveal(Seq::filter);
            assert(names_seq(ing_views(out@)) =~= step.filter(pred));
        }
        k = k + 1;
    }
    proof {
        assert(names.subrange(0, a as int) =~= names);
        assert(names_seq(ing_views(out@)) == needed_names(entries_full, inventory@));
        assert forall|t: int| 0 <= t < needed_names(entries_full, inventory@).len() implies {
            &&& (#[trigger] out@[t])@.name == needed_names(entries_full, inventory@)[t]
        } by {
            assert(names_seq(ing_views(out@))[t] == out@[t]@.name);
        }
    }
    Ok(out)
}

/// How the accumulator mirrors the entries processed so far: one slot
/// per distinct name, in order of first appearance, holding that name's
/// required total, with a zero identifier and an empty unit.
pub open spec fn agg_ok(acc: Seq<IngredientV>, processed: Seq<IngredientV>) -> bool {
    &&& acc.len() == names_of(processed).len()
    &&& forall|k: int| 0 <= k < acc.len() ==> (#[trigger] acc[k]).name == names_of(processed)[k]
    &&& forall|k: int|
        0 <= k < acc.len() ==> (#[trigger] acc[k]).quantity as nat == required_total(
            processed,
            acc[k].name,
        )
    &&& forall|k: int|
        0 <= k < acc.len() ==> (#[trigger] acc[k]).id == 0 && acc[k].unit == Seq::<char>::empty()
}

/// Splits the whole batch's entries around the entry at position `j` of
/// the recipe at position `i`.
proof fn lemma_split_point(
    s: Seq<crate::types::RecipeV>,
    ids: Seq<u64>,
    i: int,
    j: int,
    ings: Seq<IngredientV>,
)
    requires
        0 <= i < ids.len(),
        has_id(s, ids[i]),
        ings == find_recipe(s, ids[i]).unwrap().ingredients,
        0 <= j < ings.len(),
    ensures
        entries_of(s, ids) == (entries_of(s, ids.subrange(0, i)) + ings.subrange(0, j + 1)) + (
        ings.subrange(j + 1, ings.len() as int) + entries_of(
            s,
            ids.subrange(i + 1, ids.len() as int),
        )),
{
    assert(ids =~= ids.subrange(0, i + 1) + ids.subrange(i + 1, ids.len() as int));
    lemma_entries_concat(s, ids.subrange(0, i + 1), ids.subrange(i + 1, ids.len() as int));
    assert(entries_of(s, ids.subrange(0, i + 1) + ids.subrange(i + 1, ids.len() as int))
        == entries_of(s, ids));
    assert(ids.subrange(0, i + 1).drop_last() =~= ids.subrange(0, i));
    assert(ids.subrange(0, i + 1).last() == ids[i]);
    assert(entries_of(s, ids.subrange(0, i + 1)) == entries_of(s, ids.subrange(0, i)) + ings);
    assert(ings =~= ings.subrange(0, j + 1) + ings.subrange(j + 1, ings.len() as int));
    assert(entries_of(s, ids) =~= (entries_of(s, ids.subrange(0, i)) + ings.subrange(0, j + 1)) + (
    ings.subrange(j + 1, ings.len() as int) + entries_of(
        s,
        ids.subrange(i + 1, ids.len() as int),
    )));
}

} // verus!
