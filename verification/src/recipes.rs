//! The recipe store: an ordered collection of recipes keyed by a unique
//! 64-bit identifier, fed by a durable monotonic allocator.
use vstd::prelude::*;

use crate::counter::{counter_get, counter_new, counter_set, counter_value, StableCounter};
use crate::text::{msg_delete_missing, msg_recipe_missing, msg_update_missing};
use crate::types::{restamped, stamped, Error, MealType, Recipe, RecipePayload, RecipeV};

verus! {

/// Identifiers strictly increase along the sequence.
pub open spec fn ids_sorted(s: Seq<RecipeV>) -> bool {
    forall|i: int, j: int| 0 <= i < j < s.len() ==> s[i].id < s[j].id
}

/// Some record of the sequence carries this identifier.
pub open spec fn has_id(s: Seq<RecipeV>, id: u64) -> bool {
    exists|i: int| 0 <= i < s.len() && s[i].id == id
}

/// The index of the record carrying this identifier; meaningful only
/// when `has_id` holds and identifiers are unique.
pub open spec fn idx_of(s: Seq<RecipeV>, id: u64) -> int {
    choose|i: int| 0 <= i < s.len() && s[i].id == id
}

/// The record stored under the identifier, if any.
pub open spec fn find_recipe(s: Seq<RecipeV>, id: u64) -> Option<RecipeV> {
    if has_id(s, id) {
        Some(s[idx_of(s, id)])
    } else {
        None
    }
}

/// The recipe store.  Records sit in ascending identifier order, every
/// stored identifier is below the allocator's counter, and the ghost
/// history of issued identifiers is strictly increasing.
pub struct RecipeStore {
    recipes: Vec<Recipe>,
    counter: StableCounter,
    issued: Ghost<Seq<u64>>,
}

impl View for RecipeStore {
    type V = Seq<RecipeV>;

    closed spec fn view(&self) -> Seq<RecipeV> {
        self.recipes@.map_values(|r: Recipe| r@)
    }
}

impl RecipeStore {
    /// The next identifier the allocator will hand out.
    pub closed spec fn next_id(self) -> u64 {
        counter_value(self.counter)
    }

    /// Every identifier `add_recipe` has returned, oldest first.
    pub closed spec fn issued(self) -> Seq<u64> {
        self.issued@
    }

    /// The store's invariant.
    pub closed spec fn wf(self) -> bool {
        &&& ids_sorted(self@)
        &&& forall|i: int| 0 <= i < self@.len() ==> (#[trigger] self@[i]).id < self.next_id()
        &&& forall|i: int, j: int|
            0 <= i < j < self.issued@.len() ==> self.issued@[i] < self.issued@[j]
        &&& forall|i: int|
            0 <= i < self.issued@.len() ==> (#[trigger] self.issued@[i]) < self.next_id()
    }

    /// A store with no records.  The allocator continues from whatever
    /// its durable cell holds — zero on a fresh memory region, the
    /// persisted counter on one carried across a restart — so restored
    /// stores never reuse an identifier handed out before.
    pub fn new() -> (s: RecipeStore)
        ensures
            s.wf(),
            s@ == Seq::<RecipeV>::empty(),
            s.issued() == Seq::<u64>::empty(),
    {
        let s = RecipeStore { recipes: Vec::new(), counter: counter_new(), issued: Ghost(Seq::empty()) };
        proof {
            assert(s@ =~= Seq::<RecipeV>::empty());
        }
        s
    }

    /// Point lookup: a copy of the record stored under the identifier.
    pub fn _get_recipe(&self, id: &u64) -> (r: Option<Recipe>)
        requires
            self.wf(),
        ensures
            match r {
                Some(rec) => has_id(self@, *id) && rec@ == find_recipe(self@, *id).unwrap(),
                None => !has_id(self@, *id),
            },
    {
        let n = self.recipes.len();
        let mut i: usize = 0;
        while i < n
            invariant
                self.wf(),
                n == self.recipes.len(),
                0 <= i <= n,
                forall|j: int| 0 <= j < i ==> self@[j].id != *id,
            decreases n - i,
        {
            if self.recipes[i].id == *id {
                let rec = self.recipes[i].clone();
                proof {
                    assert(self@[i as int].id == *id);
                    let k = idx_of(self@, *id);
                    assert(0 <= k < self@.len() && self@[k].id == *id);
                    assert(k == i as int);
                }
                return Some(rec);
            }
            i = i + 1;
        }
        None
    }

    /// Inserts the record under its identifier, overwriting any record
    /// already stored there and keeping the order by identifier.
    pub fn do_insert_recipe(&mut self, recipe: &Recipe)
        requires
            old(self).wf(),
            recipe.id < old(self).next_id(),
        ensures
            final(self).wf(),
            final(self).next_id() == old(self).next_id(),
            final(self).issued() == old(self).issued(),
            find_recipe(final(self)@, recipe.id) == Some(recipe@),
            forall|x: u64| x != recipe.id ==> find_recipe(final(self)@, x) == find_recipe(old(self)@, x),
            final(self)@.len() == old(self)@.len() + (if has_id(old(self)@, recipe.id) { 0int } else { 1int }),
    {
        let n = self.recipes.len();
        let mut i: usize = 0;
        while i < n && self.recipes[i].id < recipe.id
            invariant
                self.wf(),
                n == self.recipes.len(),
                0 <= i <= n,
                forall|j: int| 0 <= j < i ==> self@[j].id < recipe.id,
            decreases n - i,
        {
            i = i + 1;
        }
        proof {
            if i < n {
                assert(self@[i as int].id >= recipe.id);
            }
        }
        let ghost pre = self@;
        if i < n && self.recipes[i].id == recipe.id {
            self.recipes[i] = recipe.clone();
            proof {
                assert(self@ =~= pre.update(i as int, recipe@));
                self.lemma_after_write(pre, i as int, recipe@, true);
            }
        } else {
            self.recipes.insert(i, recipe.clone());
            proof {
                assert(self@ =~= pre.insert(i as int, recipe@));
                assert forall|j: int| i <= j < pre.len() implies recipe.id < (#[trigger] pre[j]).id by {
                    if i < n {
                        assert(pre[i as int].id >= recipe.id);
                        assert(pre[i as int].id != recipe.id);
                    }
                }
                self.lemma_after_write(pre, i as int, recipe@, false);
            }
        }
    }

    /// After writing the record at its sorted position, the store is
    /// well-formed again and lookups change only at its identifier.
    proof fn lemma_after_write(&self, pre: Seq<RecipeV>, i: int, rv: RecipeV, overwrote: bool)
        requires
            ids_sorted(pre),
            forall|k: int| 0 <= k < pre.len() ==> (#[trigger] pre[k]).id < self.next_id(),
            rv.id < self.next_id(),
            0 <= i <= pre.len(),
            forall|j: int| 0 <= j < i ==> (#[trigger] pre[j]).id < rv.id,
            overwrote ==> i < pre.len() && pre[i].id == rv.id && self@ == pre.update(i, rv),
            !overwrote ==> (forall|j: int| i <= j < pre.len() ==> rv.id < (#[trigger] pre[j]).id)
                && self@ == pre.insert(i, rv),
            forall|a: int, b: int|
                0 <= a < b < self.issued@.len() ==> self.issued@[a] < self.issued@[b],
            forall|a: int| 0 <= a < self.issued@.len() ==> (#[trigger] self.issued@[a]) < self.next_id(),
        ensures
            self.wf(),
            find_recipe(self@, rv.id) == Some(rv),
            forall|x: u64| x != rv.id ==> find_recipe(self@, x) == find_recipe(pre, x),
            self@.len() == pre.len() + (if overwrote { 0int } else { 1int }),
    {
        let post = self@;
        assert(ids_sorted(post));
        assert(post[i] == rv);
        assert(has_id(post, rv.id));
        let k = idx_of(post, rv.id);
        assert(0 <= k < post.len() && post[k].id == rv.id);
        assert(k == i);
        assert forall|x: u64| x != rv.id implies find_recipe(post, x) == find_recipe(pre, x) by {
            self.lemma_other_lookup(pre, i, rv, overwrote, x);
        }
    }

    /// A lookup of any other identifier sees the same record as before
    /// the write.
    proof fn lemma_other_lookup(&self, pre: Seq<RecipeV>, i: int, rv: RecipeV, overwrote: bool, x: u64)
        requires
            ids_sorted(pre),
            ids_sorted(self@),
            0 <= i <= pre.len(),
            overwrote ==> i < pre.len() && pre[i].id == rv.id && self@ == pre.update(i, rv),
            !overwrote ==> self@ == pre.insert(i, rv),
            x != rv.id,
        ensures
            find_recipe(self@, x) == find_recipe(pre, x),
    {
        let post = self@;
        if has_id(pre, x) {
            let k = idx_of(pre, x);
            assert(0 <= k < pre.len() && pre[k].id == x);
            let k2: int = if overwrote {
                k
            } else if k < i {
                k
            } else {
                k + 1
            };
            assert(post[k2] == pre[k]);
            assert(has_id(post, x));
            let m = idx_of(post, x);
            assert(0 <= m < post.len() && post[m].id == x);
            assert(m == k2);
        } else {
            assert forall|m: int| 0 <= m < post.len() implies (#[trigger] post[m]).id != x by {
                if overwrote {
                    if m != i {
                        assert(post[m] == pre[m]);
                        assert(pre[m].id != x);
                    }
                } else {
                    if m < i {
                        assert(post[m] == pre[m]);
                    } else if m > i {
                        assert(post[m] == pre[m - 1]);
                    }
                }
            }
            assert(!has_id(post, x));
        }
    }

    /// Allocates the next identifier, stamps the payload with it and the
    /// creation time, stores the record and returns it.  Fails only when
    /// the identifier space is exhausted, leaving the store unchanged.
    pub fn add_recipe(&mut self, payload: RecipePayload, now: u64) -> (r: Option<Recipe>)
        requires
            old(self).wf(),
        ensures
            final(self).wf(),
            r is Some <==> old(self).next_id() < u64::MAX,
            r is None ==> final(self)@ == old(self)@ && final(self).next_id() == old(self).next_id()
                && final(self).issued() == old(self).issued(),
            r matches Some(rec) ==> {
                &&& rec@ == stamped(payload@, old(self).next_id(), now)
                &&& rec.id == old(self).next_id()
                &&& final(self).next_id() == old(self).next_id() + 1
                &&& final(self).issued() == old(self).issued().push(rec.id)
                &&& find_recipe(final(self)@, rec.id) == Some(rec@)
                &&& forall|x: u64| x != rec.id ==> find_recipe(final(self)@, x) == find_recipe(old(self)@, x)
                &&& final(self)@.len() == old(self)@.len() + 1
            },
    {
        let id = counter_get(&self.counter);
        if id == u64::MAX {
            return None;
        }
        let _previous = counter_set(&mut self.counter, id + 1);
        proof {
            self.issued@ = self.issued@.push(id);
        }
        let recipe = Recipe {
            id,
            name: payload.name,
            ingredients: payload.ingredients,
            instructions: payload.instructions,
            nutritional_info: payload.nutritional_info,
            meal_type: payload.meal_type,
            created_at: now,
            updated_at: None,
        };
        proof {
            assert(recipe@ =~= stamped(payload@, id, now));
            assert(!has_id(self@, id));
        }
        self.do_insert_recipe(&recipe);
        Some(recipe)
    }

    /// The record stored under the identifier, or `NotFound`.
    pub fn search_recipe(&self, id: u64) -> (r: Result<Recipe, Error>)
        requires
            self.wf(),
        ensures
            r is Ok <==> has_id(self@, id),
            r matches Ok(rec) ==> rec@ == find_recipe(self@, id).unwrap(),
            r matches Err(e) ==> e is NotFound,
    {
        match self._get_recipe(&id) {
            Some(rec) => Ok(rec),
            None => Err(Error::NotFound { msg: msg_recipe_missing(id) }),
        }
    }

    /// Replaces every mutable field of the record stored under the
    /// identifier with the payload's values and stamps the update time;
    /// the identifier and the creation time are kept.  Fails with
    /// `NotFound` when the identifier is absent, leaving the store
    /// unchanged.
    pub fn update_recipe(&mut self, id: u64, payload: RecipePayload, now: u64) -> (r: Result<
        Recipe,
        Error,
    >)
        requires
            old(self).wf(),
        ensures
            final(self).wf(),
            final(self).next_id() == old(self).next_id(),
            final(self).issued() == old(self).issued(),
            r is Ok <==> has_id(old(self)@, id),
            r is Err ==> final(self)@ == old(self)@,
            r matches Err(e) ==> e is NotFound,
            r matches Ok(rec) ==> {
                &&& rec@ == restamped(find_recipe(old(self)@, id).unwrap(), payload@, now)
                &&& find_recipe(final(self)@, id) == Some(rec@)
                &&& forall|x: u64| x != id ==> find_recipe(final(self)@, x) == find_recipe(old(self)@, x)
                &&& final(self)@.len() == old(self)@.len()
            },
    {
        match self._get_recipe(&id) {
            Some(prev) => {
                proof {
                    let k = idx_of(self@, id);
                    assert(0 <= k < self@.len() && self@[k].id == id);
                }
                let recipe = Recipe {
                    id,
                    name: payload.name,
                    ingredients: payload.ingredients,
                    instructions: payload.instructions,
                    nutritional_info: payload.nutritional_info,
                    meal_type: payload.meal_type,
                    created_at: prev.created_at,
                    updated_at: Some(now),
                };
                proof {
                    assert(recipe@ =~= restamped(find_recipe(self@, id).unwrap(), payload@, now));
                    assert(recipe.id == find_recipe(self@, id).unwrap().id);
                }
                self.do_insert_recipe(&recipe);
                Ok(recipe)
            },
            None => Err(Error::NotFound { msg: msg_update_missing(id) }),
        }
    }

    /// Removes and returns the record stored under the identifier, or
    /// fails with `NotFound`, leaving the store unchanged.  The removed
    /// identifier is never handed out again.
    pub fn delete_recipe(&mut self, id: u64) -> (r: Result<Recipe, Error>)
        requires
            old(self).wf(),
        ensures
            final(self).wf(),
            final(self).next_id() == old(self).next_id(),
            final(self).issued() == old(self).issued(),
            r is Ok <==> has_id(old(self)@, id),
            r is Err ==> final(self)@ == old(self)@,
            r matches Err(e) ==> e is NotFound,
            r matches Ok(rec) ==> {
                &&& rec@ == find_recipe(old(self)@, id).unwrap()
                &&& !has_id(final(self)@, id)
                &&& forall|x: u64| x != id ==> find_recipe(final(self)@, x) == find_recipe(old(self)@, x)
                &&& final(self)@.len() + 1 == old(self)@.len()
            },
    {
        let n = self.recipes.len();
        let mut i: usize = 0;
        while i < n
            invariant
                self.wf(),
                self@ == old(self)@,
                self.next_id() == old(self).next_id(),
                self.issued() == old(self).issued(),
                n == self.recipes.len(),
                0 <= i <= n,
                forall|j: int| 0 <= j < i ==> self@[j].id != id,
            decreases n - i,
        {
            if self.recipes[i].id == id {
                let ghost pre = self@;
                let rec = self.recipes.remove(i);
                proof {
                    assert(self@ =~= pre.remove(i as int));
                    assert(pre[i as int].id == id);
                    let k = idx_of(pre, id);
                    assert(0 <= k < pre.len() && pre[k].id == id);
                    assert(k == i as int);
                    assert forall|m: int| 0 <= m < self@.len() implies (#[trigger] self@[m]).id != id by {
                        if m < i as int {
                            assert(self@[m] == pre[m]);
                        } else {
                            assert(self@[m] == pre[m + 1]);
                        }
                    }
                    assert(!has_id(self@, id));
                    assert forall|x: u64| x != id implies find_recipe(self@, x) == find_recipe(pre, x) by {
                        self.lemma_lookup_after_remove(pre, i as int, x);
                    }
                }
                return Ok(rec);
            }
            i = i + 1;
        }
        Err(Error::NotFound { msg: msg_delete_missing(id) })
    }

    /// A lookup of any other identifier sees the same record as before
    /// the removal.
    proof fn lemma_lookup_after_remove(&self, pre: Seq<RecipeV>, i: int, x: u64)
        requires
            ids_sorted(pre),
            0 <= i < pre.len(),
            self@ == pre.remove(i),
            pre[i].id != x,
        ensures
            find_recipe(self@, x) == find_recipe(pre, x),
    {
        let post = self@;
        assert(ids_sorted(post));
        if has_id(pre, x) {
            let k = idx_of(pre, x);
            assert(0 <= k < pre.len() && pre[k].id == x);
            assert(k != i);
            let k2: int = if k < i {
                k
            } else {
                k - 1
            };
            assert(post[k2] == pre[k]);
            assert(has_id(post, x));
            let m = idx_of(post, x);
            assert(0 <= m < post.len() && post[m].id == x);
            assert(m == k2);
        } else {
            assert forall|m: int| 0 <= m < post.len() implies (#[trigger] post[m]).id != x by {
                if m < i {
                    assert(post[m] == pre[m]);
                } else {
                    assert(post[m] == pre[m + 1]);
                }
            }
            assert(!has_id(post, x));
        }
    }

    /// Full scan in ascending identifier order, keeping exactly the
    /// records whose meal category matches.  The result's identifiers
    /// strictly increase, so no record appears twice.
    pub fn search_recipe_by_meal_type(&self, meal_type: MealType) -> (r: Vec<Recipe>)
        requires
            self.wf(),
        ensures
            r@.map_values(|rec: Recipe| rec@) == self@.filter(|rv: RecipeV| rv.meal_type == meal_type),
            forall|i: int, j: int| 0 <= i < j < r@.len() ==> r@[i].id < r@[j].id,
    {
        let n = self.recipes.len();
        let mut out: Vec<Recipe> = Vec::new();
        let mut i: usize = 0;
        proof {
            reveal(Seq::filter);
            assert(out@.map_values(|rec: Recipe| rec@) =~= self@.subrange(0, 0).filter(
                |rv: RecipeV| rv.meal_type == meal_type,
            ));
        }
        while i < n
            invariant
                self.wf(),
                n == self.recipes.len(),
                0 <= i <= n,
                out@.map_values(|rec: Recipe| rec@) == self@.subrange(0, i as int).filter(
                    |rv: RecipeV| rv.meal_type == meal_type,
                ),
            decreases n - i,
        {
            let ghost prefix = self@.subrange(0, i as int);
            let ghost step = self@.subrange(0, i as int + 1);
            proof {
                assert(step.drop_last() =~= prefix);
                assert(step.last() == self@[i as int]);
            }
            let ghost before = out@;
            if meal_type_eq(&self.recipes[i].meal_type, &meal_type) {
                let rec = self.recipes[i].clone();
                out.push(rec);
                proof {
                    assert(out@.map_values(|rec: Recipe| rec@) =~= before.map_values(
                        |rec: Recipe| rec@,
                    ).push(self@[i as int]));
                }
            }
            proof {
                reveal(Seq::filter);
                assert(out@.map_values(|rec: Recipe| rec@) =~= step.filter(
                    |rv: RecipeV| rv.meal_type == meal_type,
                ));
            }
            i = i + 1;
        }
        proof {
            assert(self@.subrange(0, n as int) =~= self@);
            lemma_filter_sorted(self@, |rv: RecipeV| rv.meal_type == meal_type);
            assert forall|i: int, j: int| 0 <= i < j < out@.len() implies out@[i].id < out@[j].id by {
                let f = self@.filter(|rv: RecipeV| rv.meal_type == meal_type);
                assert(out@.map_values(|rec: Recipe| rec@)[i] == out@[i]@);
                assert(out@.map_values(|rec: Recipe| rec@)[j] == out@[j]@);
                assert(f[i].id < f[j].id);
            }
        }
        out
    }
}

/// Filtering keeps the order of what it keeps: a filter of an id-sorted
/// sequence is id-sorted, and each kept record is one of the source's.
proof fn lemma_filter_sorted(s: Seq<RecipeV>, pred: spec_fn(RecipeV) -> bool)
    requires
        ids_sorted(s),
    ensures
        ids_sorted(s.filter(pred)),
        forall|k: int| 0 <= k < s.filter(pred).len() ==> s.contains(#[trigger] s.filter(pred)[k]),
    decreases s.len(),
{
    reveal(Seq::filter);
    if s.len() > 0 {
        let dl = s.drop_last();
        assert(ids_sorted(dl));
        lemma_filter_sorted(dl, pred);
        let f = s.filter(pred);
        let fdl = dl.filter(pred);
        assert forall|k: int| 0 <= k < f.len() implies s.contains(#[trigger] f[k]) by {
            if pred(s.last()) && k == f.len() - 1 {
                assert(f[k] == s[s.len() - 1]);
            } else {
                assert(f[k] == fdl[k]);
                assert(dl.contains(fdl[k]));
                let w = choose|w: int| 0 <= w < dl.len() && dl[w] == fdl[k];
                assert(s[w] == f[k]);
            }
        }
        assert forall|i: int, j: int| 0 <= i < j < f.len() implies f[i].id < f[j].id by {
            if pred(s.last()) && j == f.len() - 1 {
                assert(f[j] == s[s.len() - 1]);
                assert(f[i] == fdl[i]);
                assert(dl.contains(fdl[i]));
                let w = choose|w: int| 0 <= w < dl.len() && dl[w] == fdl[i];
                assert(s[w] == f[i]);
                assert(s[w].id < s[s.len() - 1].id);
            } else {
                assert(f[i] == fdl[i] && f[j] == fdl[j]);
            }
        }
    }
}

/// The store invariant in the open: records sit in strictly ascending
/// identifier order — so no identifier is stored twice — and every
/// stored identifier is below the allocator's next one.
pub proof fn lemma_store_invariant(s: RecipeStore)
    requires
        s.wf(),
    ensures
        ids_sorted(s@),
        forall|i: int| 0 <= i < s@.len() ==> (#[trigger] s@[i]).id < s.next_id(),
{
}

/// Exact comparison of meal categories.
fn meal_type_eq(a: &MealType, b: &MealType) -> (r: bool)
    ensures
        r == (a == b),
{
    match (a, b) {
        (MealType::Breakfast, MealType::Breakfast) => true,
        (MealType::Lunch, MealType::Lunch) => true,
        (MealType::Dinner, MealType::Dinner) => true,
        (MealType::Snack, MealType::Snack) => true,
        (MealType::Desserts, MealType::Desserts) => true,
        _ => false,
    }
}

/// Identifier uniqueness: the identifiers `add_recipe` has issued grow
/// strictly along the history, so no identifier is ever issued twice,
/// and each exceeds every one issued before it — even after deletions,
/// since deleting never lowers the allocator's counter.
pub proof fn lemma_identifiers_unique(s: RecipeStore)
    requires
        s.wf(),
    ensures
        forall|i: int, j: int| 0 <= i < j < s.issued().len() ==> s.issued()[i] < s.issued()[j],
        forall|i: int, j: int|
            0 <= i < s.issued().len() && 0 <= j < s.issued().len() && i != j ==> s.issued()[i]
                != s.issued()[j],
{
    assert forall|i: int, j: int|
        0 <= i < s.issued().len() && 0 <= j < s.issued().len() && i != j implies s.issued()[i]
        != s.issued()[j] by {
        if i < j {
            assert(s.issued()[i] < s.issued()[j]);
        } else {
            assert(s.issued()[j] < s.issued()[i]);
        }
    }
}

/// Round trip: `add_recipe` leaves the returned record stored under its
/// identifier, so `search_recipe` of that identifier succeeds and hands
/// back exactly the record `add_recipe` returned.
pub proof fn lemma_round_trip(s: RecipeStore, id: u64, rec: RecipeV)
    requires
        s.wf(),
        find_recipe(s@, id) == Some(rec),
    ensures
        has_id(s@, id),
        find_recipe(s@, id).unwrap() == rec,
{
}

/// Update preserves identity: the record an update leaves behind keeps
/// the identifier and creation time, carries every payload field, and
/// its update stamp is no earlier than its creation — provided the clock
/// reads at or after the creation time.
pub proof fn lemma_update_preserves_identity(prev: RecipeV, p: crate::types::RecipePayloadV, now: u64)
    requires
        now >= prev.created_at,
    ensures
        restamped(prev, p, now).id == prev.id,
        restamped(prev, p, now).created_at == prev.created_at,
        restamped(prev, p, now).updated_at == Some(now),
        restamped(prev, p, now).updated_at.unwrap() >= restamped(prev, p, now).created_at,
        restamped(prev, p, now).name == p.name,
        restamped(prev, p, now).ingredients == p.ingredients,
        restamped(prev, p, now).instructions == p.instructions,
        restamped(prev, p, now).nutritional_info == p.nutritional_info,
        restamped(prev, p, now).meal_type == p.meal_type,
{
}

/// Delete is final: once no record carries the identifier — as a
/// successful `delete_recipe` ensures — a search returns nothing, so
/// `search_recipe` and a second `delete_recipe` both fail with
/// `NotFound`.
pub proof fn lemma_delete_is_final(s: RecipeStore, id: u64)
    requires
        s.wf(),
        !has_id(s@, id),
    ensures
        find_recipe(s@, id) is None,
{
}

} // verus!
