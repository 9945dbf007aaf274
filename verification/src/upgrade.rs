//! Checking the materials an item upgrade takes: each required row must be
//! met by the stack in the ingredient slot chosen for it, and the quantities
//! taken from one slot by several rows must all be there together.
use vstd::prelude::*;

use crate::item_ref::ItemReference;

verus! {

/// What a material row asks for.
#[derive(Debug, Clone, Copy, PartialEq, Eq, Structural)]
pub enum MaterialRequirement {
    /// This very item.
    Item(ItemReference),
    /// Any item of this item class (by class number).
    ItemClass(u32),
    /// Nothing the item data can name; never met.
    Unknown,
}

/// A material row: how many, of what.
#[derive(Debug, Clone, Copy, PartialEq, Eq, Structural)]
pub struct UpgradeMaterialRequirement {
    pub quantity: u32,
    pub requirement: MaterialRequirement,
}

/// An inventory slot's content as the check sees it: a stack (its item, its
/// quantity and the class of its item where the item data knows it), or an
/// item that does not stack.
#[derive(Debug, Clone, Copy, PartialEq, Eq, Structural)]
pub enum SlotItem {
    Stackable { item: ItemReference, quantity: u32, class: Option<u32> },
    Other,
}

/// Why the materials do not do.
#[derive(Debug, Clone, Copy, PartialEq, Eq, Structural)]
pub enum UpgradeMaterialError {
    /// No material rows exist for this upgrade.
    MissingRequirementRow,
    /// An ingredient slot of a required row is empty.
    MissingIngredient,
    /// An ingredient is not what its row asks for, or too few.
    IngredientMismatch,
    /// Rows sharing a slot ask for more than it holds.
    InsufficientAggregate,
}

/// The content of slot `slot`.
pub open spec fn slot_content(inv: Seq<Option<SlotItem>>, slot: usize) -> Option<SlotItem> {
    if slot < inv.len() {
        inv[slot as int]
    } else {
        None
    }
}

/// The slot's item meets the row by itself.
pub open spec fn row_met(item: SlotItem, req: UpgradeMaterialRequirement) -> bool {
    match (item, req.requirement) {
        (SlotItem::Stackable { item, quantity, .. }, MaterialRequirement::Item(wanted)) => item == wanted
            && quantity >= req.quantity,
        (SlotItem::Stackable { quantity, class, .. }, MaterialRequirement::ItemClass(c)) => quantity
            >= req.quantity && class == Some(c),
        _ => false,
    }
}

/// The quantity the required rows before `r` take from `slot`.
pub open spec fn taken_before(
    reqs: Seq<Option<UpgradeMaterialRequirement>>,
    slots: Seq<usize>,
    slot: usize,
    r: int,
) -> nat
    decreases r,
{
    if r <= 0 {
        0
    } else {
        taken_before(reqs, slots, slot, r - 1) + match reqs[r - 1] {
            Some(q) => if slots[r - 1] == slot {
                q.quantity as nat
            } else {
                0
            },
            None => 0,
        }
    }
}

/// The quantity a stack holds, none for anything else.
pub open spec fn stack_quantity(item: Option<SlotItem>) -> nat {
    match item {
        Some(SlotItem::Stackable { quantity, .. }) => quantity as nat,
        _ => 0,
    }
}

/// Taking row `r`'s quantity after the rows before it: a row that asks for
/// nothing takes nothing; else its slot holds a stack with enough left.
pub open spec fn take_ok(
    inv: Seq<Option<SlotItem>>,
    reqs: Seq<Option<UpgradeMaterialRequirement>>,
    slots: Seq<usize>,
    r: int,
) -> bool {
    match reqs[r] {
        None => true,
        Some(q) => q.quantity == 0 || (slot_content(inv, slots[r]) is Some && slot_content(
            inv,
            slots[r],
        ).unwrap() is Stackable && taken_before(reqs, slots, slots[r], r) + q.quantity
            <= stack_quantity(slot_content(inv, slots[r]))),
    }
}

/// The quantities taken, row by row (nothing for a row without a requirement).
pub open spec fn required_quantities(reqs: Seq<Option<UpgradeMaterialRequirement>>) -> Seq<u32> {
    Seq::new(
        3,
        |r: int|
            match reqs[r] {
                Some(q) => q.quantity,
                None => 0,
            },
    )
}

/// The answer to an upgrade's material check, checked in this order: the
/// rows must exist; each required row in turn needs an item in its slot that
/// meets it; then, row by row, taking each quantity from a copy of the
/// inventory must succeed.
pub open spec fn spec_validate(
    reqs: Option<Seq<Option<UpgradeMaterialRequirement>>>,
    inv: Seq<Option<SlotItem>>,
    slots: Seq<usize>,
) -> Result<Seq<u32>, UpgradeMaterialError> {
    match reqs {
        None => Err(UpgradeMaterialError::MissingRequirementRow),
        Some(rs) => {
            if exists|r: int| 0 <= r < 3 && first_failing_row(inv, rs, slots, r) {
                let r = choose|r: int| 0 <= r < 3 && first_failing_row(inv, rs, slots, r);
                if slot_content(inv, slots[r]) is None {
                    Err(UpgradeMaterialError::MissingIngredient)
                } else {
                    Err(UpgradeMaterialError::IngredientMismatch)
                }
            } else if exists|r: int| 0 <= r < 3 && !take_ok(inv, rs, slots, r) {
                Err(UpgradeMaterialError::InsufficientAggregate)
            } else {
                Ok(required_quantities(rs))
            }
        },
    }
}

/// Row `r` is the first required row whose slot does not meet it.
pub open spec fn first_failing_row(
    inv: Seq<Option<SlotItem>>,
    rs: Seq<Option<UpgradeMaterialRequirement>>,
    slots: Seq<usize>,
    r: int,
) -> bool {
    &&& row_fails(inv, rs, slots, r)
    &&& forall|k: int| 0 <= k < r ==> !#[trigger] row_fails(inv, rs, slots, k)
}

pub open spec fn row_fails(
    inv: Seq<Option<SlotItem>>,
    rs: Seq<Option<UpgradeMaterialRequirement>>,
    slots: Seq<usize>,
    r: int,
) -> bool {
    match rs[r] {
        None => false,
        Some(q) => match slot_content(inv, slots[r]) {
            None => true,
            Some(item) => !row_met(item, q),
        },
    }
}

fn get_slot(inv: &Vec<Option<SlotItem>>, slot: usize) -> (r: Option<SlotItem>)
    ensures
        r == slot_content(inv@, slot),
{
    if slot < inv.len() {
        inv[slot]
    } else {
        None
    }
}

/// Checks the materials of an upgrade: `requirements` are its material rows
/// (none when the upgrade has no rows), `ingredients` the slot chosen for
/// each row. Gives the quantity each row takes.
pub fn validate_upgrade_materials(
    requirements: Option<[Option<UpgradeMaterialRequirement>; 3]>,
    inventory: &Vec<Option<SlotItem>>,
    ingredients: [usize; 3],
) -> (r: Result<[u32; 3], UpgradeMaterialError>)
    ensures
        match spec_validate(
            match requirements {
                Some(a) => Some(a@),
                None => None,
            },
            inventory@,
            ingredients@,
        ) {
            Ok(qs) => r matches Ok(a) && a@ == qs,
            Err(e) => r == Err::<[u32; 3], UpgradeMaterialError>(e),
        },
{
    let reqs = match requirements {
        Some(a) => a,
        None => {
            return Err(UpgradeMaterialError::MissingRequirementRow);
        },
    };
    let ghost rs = reqs@;
    let ghost inv = inventory@;
    let ghost slots = ingredients@;
    let mut quantities: [u32; 3] = [0, 0, 0];
    let mut row: usize = 0;
    while row < 3
        invariant
            row <= 3,
            requirements == Some(reqs),
            rs == reqs@,
            slots == ingredients@,
            inv == inventory@,
            forall|k: int| 0 <= k < row ==> !#[trigger] row_fails(inv, rs, slots, k),
            forall|k: int| 0 <= k < row ==> #[trigger] quantities@[k] == required_quantities(rs)[k],
            forall|k: int| row <= k < 3 ==> #[trigger] quantities@[k] == 0,
        decreases 3 - row,
    {
        match reqs[row] {
            None => {},
            Some(q) => {
                quantities[row] = q.quantity;
                match get_slot(inventory, ingredients[row]) {
                    None => {
                        proof {
                            assert(first_failing_row(inv, rs, slots, row as int));
                            lemma_first_failing_unique(inv, rs, slots, row as int);
                        }
                        return Err(UpgradeMaterialError::MissingIngredient);
                    },
                    Some(item) => {
                        let ok = match (item, q.requirement) {
                            (
                                SlotItem::Stackable { item: it, quantity, .. },
                                MaterialRequirement::Item(wanted),
                            ) => it == wanted && quantity >= q.quantity,
                            (
                                SlotItem::Stackable { quantity, class, .. },
                                MaterialRequirement::ItemClass(c),
                            ) => quantity >= q.quantity && match class {
                                Some(k) => k == c,
                                None => false,
                            },
                            _ => false,
                        };
                        assert(ok == row_met(item, q));
                        if !ok {
                            proof {
                                assert(first_failing_row(inv, rs, slots, row as int));
                                lemma_first_failing_unique(inv, rs, slots, row as int);
                            }
                            return Err(UpgradeMaterialError::IngredientMismatch);
                        }
                    },
                }
            },
        }
        row = row + 1;
    }
    assert(!exists|r: int| 0 <= r < 3 && first_failing_row(inv, rs, slots, r));
    // Take each row's quantity from a copy of the slots it uses.
    let mut taken: [u64; 3] = [0, 0, 0];
    let mut r: usize = 0;
    while r < 3
        invariant
            r <= 3,
            requirements == Some(reqs),
            !exists|x: int| 0 <= x < 3 && first_failing_row(inv, rs, slots, x),
            rs == reqs@,
            slots == ingredients@,
            inv == inventory@,
            forall|k: int| 0 <= k < 3 ==> #[trigger] quantities@[k] == required_quantities(rs)[k],
            forall|k: int| 0 <= k < r ==> #[trigger] take_ok(inv, rs, slots, k),
            forall|k: int| 0 <= k < 3 ==> #[trigger] taken@[k] == taken_before(rs, slots, slots[k], r as int),
            forall|k: int| 0 <= k < 3 ==> #[trigger] taken@[k] <= r * 0xffff_ffff,
        decreases 3 - r,
    {
        let q = quantities[r];
        if q != 0 {
            let slot = ingredients[r];
            let have: u64 = match get_slot(inventory, slot) {
                Some(SlotItem::Stackable { quantity, .. }) => quantity as u64,
                _ => {
                    proof {
                        assert(!take_ok(inv, rs, slots, r as int));
                    }
                    return Err(UpgradeMaterialError::InsufficientAggregate);
                },
            };
            if taken[r] + q as u64 > have {
                proof {
                    assert(!take_ok(inv, rs, slots, r as int));
                }
                return Err(UpgradeMaterialError::InsufficientAggregate);
            }
        }
        assert(take_ok(inv, rs, slots, r as int));
        let mut k: usize = 0;
        while k < 3
            invariant
                k <= 3,
                r < 3,
                rs == reqs@,
                slots == ingredients@,
                forall|t: int| 0 <= t < 3 ==> #[trigger] quantities@[t] == required_quantities(rs)[t],
                forall|t: int| 0 <= t < k ==> #[trigger] taken@[t] == taken_before(rs, slots, slots[t], r + 1),
                forall|t: int| k <= t < 3 ==> #[trigger] taken@[t] == taken_before(rs, slots, slots[t], r as int),
                forall|t: int| 0 <= t < k ==> #[trigger] taken@[t] <= (r + 1) * 0xffff_ffff,
                forall|t: int| k <= t < 3 ==> #[trigger] taken@[t] <= r * 0xffff_ffff,
            decreases 3 - k,
        {
            if ingredients[k] == ingredients[r] {
                taken[k] = taken[k] + quantities[r] as u64;
            }
            k = k + 1;
        }
        r = r + 1;
    }
    assert(!exists|k: int| 0 <= k < 3 && !take_ok(inv, rs, slots, k));
    assert(quantities@ =~= required_quantities(rs));
    Ok(quantities)
}

proof fn lemma_first_failing_unique(
    inv: Seq<Option<SlotItem>>,
    rs: Seq<Option<UpgradeMaterialRequirement>>,
    slots: Seq<usize>,
    r: int,
)
    requires
        0 <= r < 3,
        first_failing_row(inv, rs, slots, r),
    ensures
        (choose|k: int| 0 <= k < 3 && first_failing_row(inv, rs, slots, k)) == r,
{
    let k = choose|k: int| 0 <= k < 3 && first_failing_row(inv, rs, slots, k);
    if k < r {
        assert(!row_fails(inv, rs, slots, k));
    } else if k > r {
        assert(!row_fails(inv, rs, slots, r));
    }
}

/// Materials that pass the check never take more from a slot than it holds,
/// however the rows share slots: for every slot, the quantities of all rows
/// that use it add up to at most the stack there.
pub proof fn lemma_validated_materials_fit(
    reqs: Seq<Option<UpgradeMaterialRequirement>>,
    inv: Seq<Option<SlotItem>>,
    slots: Seq<usize>,
    slot: usize,
)
    requires
        reqs.len() == 3,
        slots.len() == 3,
        spec_validate(Some(reqs), inv, slots) is Ok,
    ensures
        taken_before(reqs, slots, slot, 3) <= stack_quantity(slot_content(inv, slot)),
{
    assert(forall|k: int| 0 <= k < 3 ==> take_ok(inv, reqs, slots, k));
    lemma_taken_fits(reqs, inv, slots, slot, 3);
}

proof fn lemma_taken_fits(
    reqs: Seq<Option<UpgradeMaterialRequirement>>,
    inv: Seq<Option<SlotItem>>,
    slots: Seq<usize>,
    slot: usize,
    r: int,
)
    requires
        0 <= r <= 3,
        reqs.len() == 3,
        slots.len() == 3,
        forall|k: int| 0 <= k < 3 ==> take_ok(inv, reqs, slots, k),
    ensures
        taken_before(reqs, slots, slot, r) <= stack_quantity(slot_content(inv, slot)),
    decreases r,
{
    if r > 0 {
        lemma_taken_fits(reqs, inv, slots, slot, r - 1);
        let k = r - 1;
        if reqs[k] is Some && slots[k] == slot {
            assert(take_ok(inv, reqs, slots, k));
        }
    }
}

/// The slots of `s` without repeats, each where it first occurs.
pub open spec fn dedup(s: Seq<usize>) -> Seq<usize>
    decreases s.len(),
{
    if s.len() == 0 {
        Seq::<usize>::empty()
    } else {
        let d = dedup(s.drop_last());
        if d.contains(s.last()) {
            d
        } else {
            d.push(s.last())
        }
    }
}

pub open spec fn slots_of(v: Seq<(usize, Option<SlotItem>)>) -> Seq<usize> {
    Seq::new(v.len(), |i: int| v[i].0)
}

/// The slots without repeats hold each slot of `s` exactly once.
pub proof fn lemma_dedup_once(s: Seq<usize>)
    ensures
        forall|i: int, j: int| 0 <= i < j < dedup(s).len() ==> dedup(s)[i] != dedup(s)[j],
        forall|x: usize| dedup(s).contains(x) <==> s.contains(x),
    decreases s.len(),
{
    if s.len() > 0 {
        let init = s.drop_last();
        let last = s.last();
        let d0 = dedup(init);
        lemma_dedup_once(init);
        assert forall|x: usize| s.contains(x) <==> (init.contains(x) || x == last) by {
            if s.contains(x) {
                let k = choose|k: int| 0 <= k < s.len() && s[k] == x;
                if k < s.len() - 1 {
                    assert(init[k] == x);
                }
            }
            if init.contains(x) {
                let k = choose|k: int| 0 <= k < init.len() && init[k] == x;
                assert(s[k] == x);
            }
            if x == last {
                assert(s[s.len() - 1] == x);
            }
        }
        if d0.contains(last) {
            assert(dedup(s) == d0);
        } else {
            let d = d0.push(last);
            assert(dedup(s) == d);
            assert forall|x: usize| d.contains(x) <==> (d0.contains(x) || x == last) by {
                if d.contains(x) {
                    let k = choose|k: int| 0 <= k < d.len() && d[k] == x;
                    if k < d0.len() {
                        assert(d0[k] == x);
                    }
                }
                if d0.contains(x) {
                    let k = choose|k: int| 0 <= k < d0.len() && d0[k] == x;
                    assert(d[k] == x);
                }
                if x == last {
                    assert(d[d0.len() as int] == x);
                }
            }
            assert forall|i: int, j: int| 0 <= i < j < d.len() implies d[i] != d[j] by {
                if j == d0.len() {
                    assert(d[i] == d0[i]);
                    assert(d0.contains(d0[i]));
                }
            }
        }
    }
}

/// The slots whose content the client is told of after crafting: each slot
/// once, in the order first named, with what it now holds.
pub fn collect_craft_material_inventory_updates(
    inventory: &Vec<Option<SlotItem>>,
    material_inventory_slots: &Vec<usize>,
) -> (r: Vec<(usize, Option<SlotItem>)>)
    ensures
        slots_of(r@) == dedup(material_inventory_slots@),
        forall|i: int| 0 <= i < r@.len() ==> #[trigger] r@[i].1 == slot_content(inventory@, r@[i].0),
{
    let ghost ms = material_inventory_slots@;
    let mut out: Vec<(usize, Option<SlotItem>)> = Vec::new();
    let n = material_inventory_slots.len();
    let mut j: usize = 0;
    assert(slots_of(out@) =~= dedup(ms.take(0)));
    while j < n
        invariant
            j <= n,
            n == ms.len(),
            ms == material_inventory_slots@,
            slots_of(out@) == dedup(ms.take(j as int)),
            forall|a: int| 0 <= a < out@.len() ==> #[trigger] out@[a].1 == slot_content(inventory@, out@[a].0),
        decreases n - j,
    {
        let slot = material_inventory_slots[j];
        let mut seen = false;
        let mut a: usize = 0;
        while a < out.len()
            invariant
                a <= out@.len(),
                seen == exists|b: int| 0 <= b < a && #[trigger] out@[b].0 == slot,
            decreases out@.len() - a,
        {
            if out[a].0 == slot {
                seen = true;
            }
            a = a + 1;
        }
        proof {
            let t = ms.take(j + 1);
            assert(t.drop_last() =~= ms.take(j as int));
            assert(t.last() == slot);
            let d = dedup(ms.take(j as int));
            assert(seen == d.contains(slot)) by {
                if seen {
                    let b = choose|b: int| 0 <= b < out@.len() && #[trigger] out@[b].0 == slot;
                    assert(d[b] == slot);
                }
                if d.contains(slot) {
                    let b = choose|b: int| 0 <= b < d.len() && d[b] == slot;
                    assert(out@[b].0 == slot);
                }
            }
        }
        if !seen {
            let content = get_slot(inventory, slot);
            let ghost before = out@;
            out.push((slot, content));
            assert(slots_of(out@) =~= slots_of(before).push(slot));
        }
        j = j + 1;
    }
    assert(ms.take(n as int) =~= ms);
    out
}

/// What a slot holds after taking `q` from it: nothing is taken when `q` is
/// zero, or from anything but a stack of at least `q`; a stack of exactly `q`
/// leaves the slot empty, a larger one loses `q`.
pub open spec fn take_from(item: Option<SlotItem>, q: u32) -> Option<SlotItem> {
    match item {
        Some(SlotItem::Stackable { item: it, quantity, class }) => if q == 0 || quantity < q {
            item
        } else if quantity == q {
            None
        } else {
            Some(SlotItem::Stackable { item: it, quantity: (quantity - q) as u32, class })
        },
        _ => item,
    }
}

/// The slots after taking `q` from slot `slot` (no change past the last slot).
pub open spec fn take_at(inv: Seq<Option<SlotItem>>, slot: usize, q: u32) -> Seq<Option<SlotItem>> {
    if slot < inv.len() {
        inv.update(slot as int, take_from(inv[slot as int], q))
    } else {
        inv
    }
}

/// The slots after taking, row by row for the first `n` rows, `qs[i]` from
/// slot `slots[i]`.
pub open spec fn take_rows(
    inv: Seq<Option<SlotItem>>,
    slots: Seq<usize>,
    qs: Seq<u32>,
    n: nat,
) -> Seq<Option<SlotItem>>
    decreases n,
{
    if n == 0 {
        inv
    } else {
        take_at(take_rows(inv, slots, qs, (n - 1) as nat), slots[n - 1], qs[n - 1])
    }
}

/// The quantity the first `n` rows take from slot `s`.
pub open spec fn take_sum(slots: Seq<usize>, qs: Seq<u32>, s: usize, n: nat) -> nat
    decreases n,
{
    if n == 0 {
        0
    } else {
        take_sum(slots, qs, s, (n - 1) as nat) + if slots[n - 1] == s {
            qs[n - 1] as nat
        } else {
            0nat
        }
    }
}

fn take_quantity(inventory: &mut Vec<Option<SlotItem>>, slot: usize, q: u32)
    ensures
        final(inventory)@ == take_at(old(inventory)@, slot, q),
{
    if slot < inventory.len() {
        let current = inventory[slot];
        let next = match current {
            Some(SlotItem::Stackable { item, quantity, class }) => if q == 0 || quantity < q {
                current
            } else if quantity == q {
                None
            } else {
                Some(SlotItem::Stackable { item, quantity: quantity - q, class })
            },
            _ => current,
        };
        inventory.set(slot, next);
    }
}

/// Takes `quantities[i]` from slot `slots[i]`, row by row.
pub fn take_quantities(inventory: &mut Vec<Option<SlotItem>>, slots: &[usize], quantities: &[u32])
    requires
        quantities@.len() <= slots@.len(),
    ensures
        final(inventory)@ == take_rows(old(inventory)@, slots@, quantities@, quantities@.len()),
{
    let mut i: usize = 0;
    while i < quantities.len()
        invariant
            i <= quantities@.len(),
            quantities@.len() <= slots@.len(),
            inventory@ == take_rows(old(inventory)@, slots@, quantities@, i as nat),
        decreases quantities@.len() - i,
    {
        take_quantity(inventory, slots[i], quantities[i]);
        i = i + 1;
    }
}

/// The state of slot `s` after the first `n` rows: untouched when they take
/// nothing from it, else a stack that has lost what they took (empty when
/// that was all of it).
pub open spec fn taken_state(
    inv: Seq<Option<SlotItem>>,
    cur: Seq<Option<SlotItem>>,
    slots: Seq<usize>,
    qs: Seq<u32>,
    s: usize,
    n: nat,
) -> bool {
    let t = take_sum(slots, qs, s, n);
    if t == 0 {
        slot_content(cur, s) == slot_content(inv, s)
    } else {
        match slot_content(inv, s) {
            Some(SlotItem::Stackable { item, quantity, class }) => t <= quantity && slot_content(
                cur,
                s,
            ) == (if quantity == t {
                None
            } else {
                Some(SlotItem::Stackable { item, quantity: (quantity - t) as u32, class })
            }),
            _ => false,
        }
    }
}

/// Row `r` can be taken: it takes nothing, or its slot holds a stack with
/// enough left after the rows before it.
pub open spec fn row_takeable(inv: Seq<Option<SlotItem>>, slots: Seq<usize>, qs: Seq<u32>, r: int) -> bool {
    qs[r] == 0 || (slot_content(inv, slots[r]) is Some && slot_content(inv, slots[r]).unwrap() is Stackable
        && take_sum(slots, qs, slots[r], r as nat) + qs[r] <= stack_quantity(slot_content(inv, slots[r])))
}

proof fn lemma_take_rows_state(inv: Seq<Option<SlotItem>>, slots: Seq<usize>, qs: Seq<u32>, n: nat)
    requires
        n <= slots.len(),
        n <= qs.len(),
        forall|r: int| 0 <= r < n ==> #[trigger] row_takeable(inv, slots, qs, r),
    ensures
        take_rows(inv, slots, qs, n).len() == inv.len(),
        forall|s: usize| #[trigger] taken_state(inv, take_rows(inv, slots, qs, n), slots, qs, s, n),
    decreases n,
{
    if n > 0 {
        let m = (n - 1) as nat;
        lemma_take_rows_state(inv, slots, qs, m);
        let prev = take_rows(inv, slots, qs, m);
        let x = slots[m as int];
        let q = qs[m as int];
        let cur = take_rows(inv, slots, qs, n);
        assert(cur == take_at(prev, x, q));
        assert(row_takeable(inv, slots, qs, m as int));
        assert forall|s: usize| #[trigger] taken_state(inv, cur, slots, qs, s, n) by {
            assert(taken_state(inv, prev, slots, qs, s, m));
            if s != x {
                assert(take_sum(slots, qs, s, n) == take_sum(slots, qs, s, m));
                if x < prev.len() {
                    assert(slot_content(cur, s) == slot_content(prev, s));
                }
            } else {
                assert(take_sum(slots, qs, s, n) == take_sum(slots, qs, s, m) + q);
                if q == 0 {
                    if x < prev.len() {
                        assert(cur[x as int] == prev[x as int]);
                    }
                } else {
                    assert(x < inv.len());
                }
            }
        }
    }
}

proof fn lemma_take_sum_is_taken_before(
    reqs: Seq<Option<UpgradeMaterialRequirement>>,
    slots: Seq<usize>,
    s: usize,
    r: nat,
)
    requires
        reqs.len() == 3,
        r <= 3,
    ensures
        take_sum(slots, required_quantities(reqs), s, r) == taken_before(reqs, slots, s, r as int),
    decreases r,
{
    if r > 0 {
        lemma_take_sum_is_taken_before(reqs, slots, s, (r - 1) as nat);
    }
}

/// Taking the quantities an upgrade check approved takes from each slot
/// exactly what the rows using it ask for in all, leaves every other slot as
/// it was, and never runs a stack short: what is left and what was taken add
/// up to the stack there before.
pub proof fn lemma_approved_materials_taken_exactly(
    reqs: Seq<Option<UpgradeMaterialRequirement>>,
    inv: Seq<Option<SlotItem>>,
    slots: Seq<usize>,
)
    requires
        reqs.len() == 3,
        slots.len() == 3,
        spec_validate(Some(reqs), inv, slots) is Ok,
    ensures
        ({
            let qs = required_quantities(reqs);
            let after = take_rows(inv, slots, qs, 3);
            &&& after.len() == inv.len()
            &&& forall|s: usize|
                #![trigger slot_content(after, s)]
                stack_quantity(slot_content(after, s)) + take_sum(slots, qs, s, 3) == stack_quantity(
                    slot_content(inv, s),
                )
            &&& forall|s: usize|
                #![trigger slot_content(after, s)]
                take_sum(slots, qs, s, 3) == 0 ==> slot_content(after, s) == slot_content(inv, s)
        }),
{
    let qs = required_quantities(reqs);
    assert(!exists|k: int| 0 <= k < 3 && !take_ok(inv, reqs, slots, k));
    assert forall|r: int| 0 <= r < 3 implies #[trigger] row_takeable(inv, slots, qs, r) by {
        assert(take_ok(inv, reqs, slots, r));
        lemma_take_sum_is_taken_before(reqs, slots, slots[r], r as nat);
    }
    lemma_take_rows_state(inv, slots, qs, 3);
    let after = take_rows(inv, slots, qs, 3);
    assert forall|s: usize| #![trigger slot_content(after, s)]
        stack_quantity(slot_content(after, s)) + take_sum(slots, qs, s, 3) == stack_quantity(
            slot_content(inv, s),
        ) by {
        assert(taken_state(inv, after, slots, qs, s, 3));
    }
    assert forall|s: usize| #![trigger slot_content(after, s)]
        take_sum(slots, qs, s, 3) == 0 implies slot_content(after, s) == slot_content(inv, s) by {
        assert(taken_state(inv, after, slots, qs, s, 3));
    }
}

} // verus!
