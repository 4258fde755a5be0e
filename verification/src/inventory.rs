//! The ingredient inventory: at most one entry per name, quantities
//! merged on stocking and decremented on removal, never below zero.
use vstd::prelude::*;

use crate::text::{msg_ingredient_missing, msg_insufficient};
use crate::types::{Error, Ingredient, IngredientPayload, IngredientV};

verus! {

/// No two entries share a name.
pub open spec fn names_unique(s: Seq<IngredientV>) -> bool {
    forall|i: int, j: int| 0 <= i < j < s.len() ==> s[i].name != s[j].name
}

/// Some entry of the sequence carries this name.
pub open spec fn has_name(s: Seq<IngredientV>, name: Seq<char>) -> bool {
    exists|i: int| 0 <= i < s.len() && s[i].name == name
}

/// The index of the entry carrying this name; meaningful only when
/// `has_name` holds and names are unique.
pub open spec fn name_idx(s: Seq<IngredientV>, name: Seq<char>) -> int {
    choose|i: int| 0 <= i < s.len() && s[i].name == name
}

/// The entry stored under the name, if any.
pub open spec fn find_ingredient(s: Seq<IngredientV>, name: Seq<char>) -> Option<IngredientV> {
    if has_name(s, name) {
        Some(s[name_idx(s, name)])
    } else {
        None
    }
}

/// The quantity on hand under the name; an absent entry counts as zero.
pub open spec fn on_hand(s: Seq<IngredientV>, name: Seq<char>) -> u64 {
    if has_name(s, name) {
        find_ingredient(s, name).unwrap().quantity
    } else {
        0
    }
}

/// Overwriting the entry at a name's index, keeping its name, makes a
/// lookup of that name yield the new entry and leaves every other
/// name's lookup unchanged.
proof fn lemma_lookup_after_update(pre: Seq<IngredientV>, i: int, v: IngredientV, x: Seq<char>)
    requires
        names_unique(pre),
        0 <= i < pre.len(),
        v.name == pre[i].name,
    ensures
        find_ingredient(pre.update(i, v), v.name) == Some(v),
        x != v.name ==> find_ingredient(pre.update(i, v), x) == find_ingredient(pre, x),
{
    let post = pre.update(i, v);
    assert forall|m: int| 0 <= m < post.len() implies (#[trigger] post[m]).name == pre[m].name by {
        if m != i {
            assert(post[m] == pre[m]);
        }
    }
    assert(post[i] == v);
    assert(has_name(post, v.name));
    let k = name_idx(post, v.name);
    assert(0 <= k < post.len() && post[k].name == v.name);
    assert(k == i);
    if x != v.name {
        if has_name(pre, x) {
            let k1 = name_idx(pre, x);
            assert(0 <= k1 < pre.len() && pre[k1].name == x);
            assert(k1 != i);
            assert(post[k1] == pre[k1]);
            assert(has_name(post, x));
            let k2 = name_idx(post, x);
            assert(0 <= k2 < post.len() && post[k2].name == x);
            assert(k2 == k1);
        } else {
            assert(!has_name(post, x));
        }
    }
}

/// Appending an entry under a fresh name makes a lookup of that name
/// yield it and leaves every other name's lookup unchanged.
proof fn lemma_lookup_after_push(pre: Seq<IngredientV>, v: IngredientV, x: Seq<char>)
    requires
        names_unique(pre),
        !has_name(pre, v.name),
    ensures
        find_ingredient(pre.push(v), v.name) == Some(v),
        x != v.name ==> find_ingredient(pre.push(v), x) == find_ingredient(pre, x),
{
    let post = pre.push(v);
    assert(post[pre.len() as int] == v);
    assert(has_name(post, v.name));
    let k = name_idx(post, v.name);
    assert(0 <= k < post.len() && post[k].name == v.name);
    assert(k == pre.len() as int) by {
        if k < pre.len() {
            assert(pre[k].name == v.name);
        }
    }
    if x != v.name {
        if has_name(pre, x) {
            let k1 = name_idx(pre, x);
            assert(0 <= k1 < pre.len() && pre[k1].name == x);
            assert(post[k1] == pre[k1]);
            assert(has_name(post, x));
            let k2 = name_idx(post, x);
            assert(0 <= k2 < post.len() && post[k2].name == x);
            assert(k2 != pre.len() as int);
            assert(k2 == k1);
        } else {
            assert forall|m: int| 0 <= m < post.len() implies (#[trigger] post[m]).name != x by {
                if m < pre.len() {
                    assert(post[m] == pre[m]);
                }
            }
            assert(!has_name(post, x));
        }
    }
}

/// The ingredient inventory.  Entries are keyed by exact name; a counter
/// assigns identifiers to newly stocked entries.
pub struct Inventory {
    items: Vec<Ingredient>,
    next_ingredient_id: u64,
}

impl View for Inventory {
    type V = Seq<IngredientV>;

    closed spec fn view(&self) -> Seq<IngredientV> {
        self.items@.map_values(|i: Ingredient| i@)
    }
}

impl Inventory {
    /// The identifier counter's current value.
    pub closed spec fn next_ingredient_id(self) -> u64 {
        self.next_ingredient_id
    }

    /// The inventory's invariant: entry names are unique.
    pub closed spec fn wf(self) -> bool {
        names_unique(self@)
    }

    /// An empty inventory whose identifier counter starts at zero.
    pub fn new() -> (inv: Inventory)
        ensures
            inv.wf(),
            inv@ == Seq::<IngredientV>::empty(),
            inv.next_ingredient_id() == 0,
    {
        let inv = Inventory { items: Vec::new(), next_ingredient_id: 0 };
        proof {
            assert(inv@ =~= Seq::<IngredientV>::empty());
        }
        inv
    }

    /// Every entry, in the order the names were first stocked: one per
    /// stored name, since no two entries share one.
    pub fn view_inventory(&self) -> (r: Vec<Ingredient>)
        requires
            self.wf(),
        ensures
            r@.map_values(|i: Ingredient| i@) == self@,
            names_unique(r@.map_values(|i: Ingredient| i@)),
    {
        let n = self.items.len();
        let mut out: Vec<Ingredient> = Vec::new();
        let mut i: usize = 0;
        while i < n
            invariant
                n == self.items.len(),
                0 <= i <= n,
                out@.len() == i,
                forall|j: int| 0 <= j < i ==> out@[j] == self.items@[j],
            decreases n - i,
        {
            out.push(self.items[i].clone());
            i = i + 1;
        }
        proof {
            assert(out@ =~= self.items@);
        }
        out
    }

    /// The quantity on hand under the name; an absent entry reads zero.
    pub fn quantity_of(&self, name: &String) -> (r: u64)
        requires
            self.wf(),
        ensures
            r == on_hand(self@, name@),
    {
        let n = self.items.len();
        let mut i: usize = 0;
        while i < n
            invariant
                self.wf(),
                n == self.items.len(),
                0 <= i <= n,
                forall|j: int| 0 <= j < i ==> self@[j].name != name@,
            decreases n - i,
        {
            if self.items[i].name == *name {
                proof {
                    assert(self@[i as int].name == name@);
                    let k = name_idx(self@, name@);
                    assert(0 <= k < self@.len() && self@[k].name == name@);
                    assert(k == i as int);
                }
                return self.items[i].quantity;
            }
            i = i + 1;
        }
        0
    }

    /// Stocks an ingredient.  A payload whose name is already present
    /// merges: the stored entry's quantity grows by the payload's and
    /// the merged entry is returned.  A new name is appended under a
    /// fresh identifier.  Either way the identifier counter advances.
    /// Returns nothing — leaving the inventory unchanged — only when the
    /// counter or the merged quantity would not fit in 64 bits.
    pub fn add_ingredient_to_inventory(&mut self, payload: IngredientPayload) -> (r: Option<
        Ingredient,
    >)
        requires
            old(self).wf(),
        ensures
            final(self).wf(),
            r is Some <==> (old(self).next_ingredient_id() < u64::MAX && (has_name(
                old(self)@,
                payload.name@,
            ) ==> find_ingredient(old(self)@, payload.name@).unwrap().quantity + payload.quantity
                <= u64::MAX)),
            r is None ==> final(self)@ == old(self)@ && final(self).next_ingredient_id() == old(
                self,
            ).next_ingredient_id(),
            r matches Some(ing) ==> {
                &&& final(self).next_ingredient_id() == old(self).next_ingredient_id() + 1
                &&& find_ingredient(final(self)@, payload.name@) == Some(ing@)
                &&& forall|o: Seq<char>|
                    o != payload.name@ ==> find_ingredient(final(self)@, o) == find_ingredient(
                        old(self)@,
                        o,
                    )
                &&& (has_name(old(self)@, payload.name@) ==> {
                    let prev = find_ingredient(old(self)@, payload.name@).unwrap();
                    &&& ing@ == (IngredientV {
                        id: prev.id,
                        name: prev.name,
                        quantity: (prev.quantity + payload.quantity) as u64,
                        unit: prev.unit,
                    })
                    &&& final(self)@ == old(self)@.update(name_idx(old(self)@, payload.name@), ing@)
                })
                &&& (!has_name(old(self)@, payload.name@) ==> {
                    &&& ing@ == (IngredientV {
                        id: (old(self).next_ingredient_id() + 1) as u64,
                        name: payload.name@,
                        quantity: payload.quantity,
                        unit: payload.unit@,
                    })
                    &&& final(self)@ == old(self)@.push(ing@)
                })
            },
    {
        if self.next_ingredient_id == u64::MAX {
            return None;
        }
        let n = self.items.len();
        let mut i: usize = 0;
        while i < n
            invariant
                self.wf(),
                self@ == old(self)@,
                self.next_ingredient_id == old(self).next_ingredient_id(),
                self.next_ingredient_id < u64::MAX,
                n == self.items.len(),
                0 <= i <= n,
                forall|j: int| 0 <= j < i ==> self@[j].name != payload.name@,
            decreases n - i,
        {
            if self.items[i].name == payload.name {
                proof {
                    assert(self@[i as int].name == payload.name@);
                    let k = name_idx(self@, payload.name@);
                    assert(0 <= k < self@.len() && self@[k].name == payload.name@);
                    assert(k == i as int);
                }
                if payload.quantity > u64::MAX - self.items[i].quantity {
                    return None;
                }
                self.next_ingredient_id = self.next_ingredient_id + 1;
                let entry = self.items[i].clone();
                let merged = Ingredient {
                    id: entry.id,
                    name: entry.name,
                    quantity: entry.quantity + payload.quantity,
                    unit: entry.unit,
                };
                let ghost pre = self@;
                let ret = merged.clone();
                self.items[i] = merged;
                proof {
                    assert(self@ =~= pre.update(i as int, ret@));
                    assert(names_unique(self@));
                    assert(ret@.name == pre[i as int].name);
                    lemma_lookup_after_update(pre, i as int, ret@, payload.name@);
                    assert forall|o: Seq<char>| o != payload.name@ implies find_ingredient(
                        self@,
                        o,
                    ) == find_ingredient(pre, o) by {
                        lemma_lookup_after_update(pre, i as int, ret@, o);
                    }
                }
                return Some(ret);
            }
            i = i + 1;
        }
        self.next_ingredient_id = self.next_ingredient_id + 1;
        let fresh = Ingredient {
            id: self.next_ingredient_id,
            name: payload.name,
            quantity: payload.quantity,
            unit: payload.unit,
        };
        let ghost pre = self@;
        let ret = fresh.clone();
        self.items.push(fresh);
        proof {
            assert(self@ =~= pre.push(ret@));
            assert(names_unique(self@));
            assert(!has_name(pre, ret@.name));
            lemma_lookup_after_push(pre, ret@, payload.name@);
            assert forall|o: Seq<char>| o != payload.name@ implies find_ingredient(self@, o)
                == find_ingredient(pre, o) by {
                lemma_lookup_after_push(pre, ret@, o);
            }
        }
        Some(ret)
    }

    /// Deducts the quantity from the entry stored under the name and
    /// returns a record of what was removed; the remainder — possibly
    /// zero — stays in the inventory.  An absent name and an entry with
    /// too little on hand both fail with `NotFound`, and the inventory
    /// is left unchanged.
    pub fn remove_ingredient_from_inventory(&mut self, ingredient_name: String, quantity: u64) -> (r:
        Result<Ingredient, Error>)
        requires
            old(self).wf(),
        ensures
            final(self).wf(),
            final(self).next_ingredient_id() == old(self).next_ingredient_id(),
            r is Ok <==> (has_name(old(self)@, ingredient_name@) && find_ingredient(
                old(self)@,
                ingredient_name@,
            ).unwrap().quantity >= quantity),
            r is Err ==> final(self)@ == old(self)@,
            r matches Err(e) ==> e is NotFound,
            r matches Ok(ing) ==> {
                let prev = find_ingredient(old(self)@, ingredient_name@).unwrap();
                &&& ing@ == (IngredientV {
                    id: prev.id,
                    name: prev.name,
                    quantity: quantity,
                    unit: prev.unit,
                })
                &&& final(self)@ == old(self)@.update(
                    name_idx(old(self)@, ingredient_name@),
                    IngredientV {
                        id: prev.id,
                        name: prev.name,
                        quantity: (prev.quantity - quantity) as u64,
                        unit: prev.unit,
                    },
                )
                &&& find_ingredient(final(self)@, ingredient_name@) == Some(
                    IngredientV {
                        id: prev.id,
                        name: prev.name,
                        quantity: (prev.quantity - quantity) as u64,
                        unit: prev.unit,
                    },
                )
                &&& forall|o: Seq<char>|
                    o != ingredient_name@ ==> find_ingredient(final(self)@, o) == find_ingredient(
                        old(self)@,
                        o,
                    )
            },
    {
        let n = self.items.len();
        let mut i: usize = 0;
        while i < n
            invariant
                self.wf(),
                self@ == old(self)@,
                self.next_ingredient_id == old(self).next_ingredient_id(),
                n == self.items.len(),
                0 <= i <= n,
                forall|j: int| 0 <= j < i ==> self@[j].name != ingredient_name@,
            decreases n - i,
        {
            if self.items[i].name == ingredient_name {
                proof {
                    assert(self@[i as int].name == ingredient_name@);
                    let k = name_idx(self@, ingredient_name@);
                    assert(0 <= k < self@.len() && self@[k].name == ingredient_name@);
                    assert(k == i as int);
                }
                if self.items[i].quantity >= quantity {
                    let entry = self.items[i].clone();
                    let removed = Ingredient {
                        id: entry.id,
                        name: entry.name.clone(),
                        quantity,
                        unit: entry.unit.clone(),
                    };
                    let remainder = Ingredient {
                        id: entry.id,
                        name: entry.name,
                        quantity: entry.quantity - quantity,
                        unit: entry.unit,
                    };
                    let ghost pre = self@;
                    let ghost left = IngredientV {
                        id: pre[i as int].id,
                        name: pre[i as int].name,
                        quantity: (pre[i as int].quantity - quantity) as u64,
                        unit: pre[i as int].unit,
                    };
                    self.items[i] = remainder;
                    proof {
                        assert(self@ =~= pre.update(i as int, left));
                        assert(names_unique(self@));
                        lemma_lookup_after_update(pre, i as int, left, ingredient_name@);
                        assert forall|o: Seq<char>| o != ingredient_name@ implies find_ingredient(
                            self@,
                            o,
                        ) == find_ingredient(pre, o) by {
                            lemma_lookup_after_update(pre, i as int, left, o);
                        }
                    }
                    return Ok(removed);
                } else {
                    return Err(Error::NotFound { msg: msg_insufficient(&ingredient_name) });
                }
            }
            i = i + 1;
        }
        Err(Error::NotFound { msg: msg_ingredient_missing(&ingredient_name) })
    }
}

/// The inventory invariant in the open: no two entries share a name, so
/// the inventory holds at most one entry per ingredient name.
pub proof fn lemma_inventory_invariant(inv: Inventory)
    requires
        inv.wf(),
    ensures
        names_unique(inv@),
{
}

} // verus!
