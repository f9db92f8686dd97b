//! The player's inventory: thirty slots of item stacks of at most 32 items.
use vstd::prelude::*;

verus! {

/// Items a stack can hold.
pub const STACK_LIMIT: u8 = 32;

/// Slots in an inventory.
pub const SLOT_COUNT: usize = 30;

/// Item ids run from 0 to this value.
pub const LAST_ITEM_ID: usize = 4;

pub open spec fn item_name(id: usize) -> Seq<char> {
    if id == 0 {
        "XP Drop"@
    } else if id == 1 {
        "XP Gem"@
    } else if id == 2 {
        "Ultra XP Core"@
    } else if id == 3 {
        "Small Health Potion"@
    } else {
        "Medium Health Potato"@
    }
}

pub open spec fn item_description(id: usize) -> Seq<char> {
    if id == 0 {
        "A small drop of XP. Where'd it come from?\nGrants the player 10 XP."@
    } else if id == 1 {
        "A prized, cool looking XP gemstone.\nGrants the player 100 XP."@
    } else if id == 2 {
        "The rarest crystal of its kind.\nGrants the player 2000 XP."@
    } else if id == 3 {
        "A definitely-not-suspicious green solution!\nGrants the player 10% MAX HP."@
    } else {
        "Made of defeated capsules and scorpion blood.\nGrants the player 25% MAX HP."@
    }
}

/// A number of items of one kind in one slot.
#[derive(Clone, Debug)]
pub struct ItemStack {
    pub item_id: usize,
    pub item_name: String,
    pub description: String,
    pub quantity: u8,
}

impl ItemStack {
    pub fn new(item_id: usize, quantity: u8) -> (s: ItemStack)
        requires
            item_id <= LAST_ITEM_ID,
        ensures
            s.item_id == item_id,
            s.quantity == quantity,
            s.item_name@ == item_name(item_id),
            s.description@ == item_description(item_id),
    {
        let (name, description) = if item_id == 0 {
            proof {
                reveal_strlit("XP Drop");
                reveal_strlit("A small drop of XP. Where'd it come from?\nGrants the player 10 XP.");
            }
            ("XP Drop", "A small drop of XP. Where'd it come from?\nGrants the player 10 XP.")
        } else if item_id == 1 {
            proof {
                reveal_strlit("XP Gem");
                reveal_strlit("A prized, cool looking XP gemstone.\nGrants the player 100 XP.");
            }
            ("XP Gem", "A prized, cool looking XP gemstone.\nGrants the player 100 XP.")
        } else if item_id == 2 {
            proof {
                reveal_strlit("Ultra XP Core");
                reveal_strlit("The rarest crystal of its kind.\nGrants the player 2000 XP.");
            }
            ("Ultra XP Core", "The rarest crystal of its kind.\nGrants the player 2000 XP.")
        } else if item_id == 3 {
            proof {
                reveal_strlit("Small Health Potion");
                reveal_strlit("A definitely-not-suspicious green solution!\nGrants the player 10% MAX HP.");
            }
            ("Small Health Potion", "A definitely-not-suspicious green solution!\nGrants the player 10% MAX HP.")
        } else {
            proof {
                reveal_strlit("Medium Health Potato");
                reveal_strlit("Made of defeated capsules and scorpion blood.\nGrants the player 25% MAX HP.");
            }
            ("Medium Health Potato", "Made of defeated capsules and scorpion blood.\nGrants the player 25% MAX HP.")
        };
        ItemStack { item_id, item_name: name.to_owned(), description: description.to_owned(), quantity }
    }

    /// Adds `quantity` items to the stack, which must have room for them.
    pub fn add(&mut self, quantity: u8)
        requires
            old(self).quantity + quantity <= STACK_LIMIT,
        ensures
            final(self).quantity == old(self).quantity + quantity,
            final(self).item_id == old(self).item_id,
            final(self).item_name == old(self).item_name,
            final(self).description == old(self).description,
    {
        self.quantity = self.quantity + quantity;
    }
}

/// The amount picked for a stack of `stack_quantity` items after a press
/// of a button worth `amount`: raising stops at the stack's size, lowering
/// stops at one.
pub open spec fn stepped(current: u8, amount: i8, stack_quantity: u8) -> u8 {
    if amount > 0 {
        if current + amount > stack_quantity { stack_quantity } else { (current + amount) as u8 }
    } else {
        if -amount < current { (current + amount) as u8 } else { 1 }
    }
}

pub fn stepped_quantity(current: u8, amount: i8, stack_quantity: u8) -> (q: u8)
    ensures
        q == stepped(current, amount, stack_quantity),
{
    if amount > 0 {
        let net = current as u16 + amount as u16;
        if net > stack_quantity as u16 {
            stack_quantity
        } else {
            net as u8
        }
    } else {
        let down = (-(amount as i16)) as u16;
        if down < current as u16 {
            (current as u16 - down) as u8
        } else {
            1
        }
    }
}

/// A slot seen as the id and count of its stack.
pub open spec fn slot_view(s: Option<ItemStack>) -> Option<(usize, u8)> {
    match s {
        Some(st) => Some((st.item_id, st.quantity)),
        None => None,
    }
}

/// One slot of the first pass: a stack of item `id` with room takes what fits.
pub open spec fn top_up(s: Option<(usize, u8)>, id: usize, qty: nat) -> (Option<(usize, u8)>, nat) {
    match s {
        Some((sid, n)) => if sid == id && n < STACK_LIMIT {
            let room = (STACK_LIMIT - n) as nat;
            if qty <= room {
                (Some((sid, (n + qty) as u8)), 0)
            } else {
                (Some((sid, STACK_LIMIT)), (qty - room) as nat)
            }
        } else {
            (s, qty)
        },
        None => (s, qty),
    }
}

/// One slot of the second pass: an empty slot takes a new stack of what is left.
pub open spec fn fill_empty(s: Option<(usize, u8)>, id: usize, qty: nat) -> (Option<(usize, u8)>, nat) {
    match s {
        None => if qty == 0 {
            (s, qty)
        } else if qty <= STACK_LIMIT {
            (Some((id, qty as u8)), 0)
        } else {
            (Some((id, STACK_LIMIT)), (qty - STACK_LIMIT) as nat)
        },
        Some(_) => (s, qty),
    }
}

/// The first pass over the slots: the new slots and what is left to place.
pub open spec fn top_up_all(slots: Seq<Option<(usize, u8)>>, id: usize, qty: nat) -> (Seq<Option<(usize, u8)>>, nat)
    decreases slots.len(),
{
    if slots.len() == 0 {
        (slots, qty)
    } else {
        let (first, left) = top_up(slots[0], id, qty);
        let (rest, left2) = top_up_all(slots.drop_first(), id, left);
        (seq![first] + rest, left2)
    }
}

/// The second pass over the slots.
pub open spec fn fill_empty_all(slots: Seq<Option<(usize, u8)>>, id: usize, qty: nat) -> (Seq<Option<(usize, u8)>>, nat)
    decreases slots.len(),
{
    if slots.len() == 0 {
        (slots, qty)
    } else {
        let (first, left) = fill_empty(slots[0], id, qty);
        let (rest, left2) = fill_empty_all(slots.drop_first(), id, left);
        (seq![first] + rest, left2)
    }
}

/// The slots after adding `qty` items of `id`: stacks of that item are topped
/// up in slot order, then empty slots take new stacks; what does not fit is
/// dropped.
pub open spec fn slots_after_adding(slots: Seq<Option<(usize, u8)>>, id: usize, qty: nat) -> Seq<Option<(usize, u8)>> {
    let (topped, left) = top_up_all(slots, id, qty);
    fill_empty_all(topped, id, left).0
}

/// The items the inventory could not take.
pub open spec fn dropped_after_adding(slots: Seq<Option<(usize, u8)>>, id: usize, qty: nat) -> nat {
    let (topped, left) = top_up_all(slots, id, qty);
    fill_empty_all(topped, id, left).1
}

pub struct Inventory {
    slots: Vec<Option<ItemStack>>,
}

impl View for Inventory {
    type V = Seq<Option<(usize, u8)>>;

    closed spec fn view(&self) -> Seq<Option<(usize, u8)>> {
        self.slots@.map_values(|s: Option<ItemStack>| slot_view(s))
    }
}

proof fn lemma_top_up_step(slots: Seq<Option<(usize, u8)>>, i: int, id: usize, qty: nat)
    requires
        0 <= i < slots.len(),
    ensures
        ({
            let (first, left) = top_up(slots[i], id, qty);
            let (rest, left2) = top_up_all(slots.subrange(i + 1, slots.len() as int), id, left);
            top_up_all(slots.subrange(i, slots.len() as int), id, qty) == (seq![first] + rest, left2)
        }),
{
    assert(slots.subrange(i, slots.len() as int).drop_first() =~= slots.subrange(i + 1, slots.len() as int));
}

proof fn lemma_fill_empty_step(slots: Seq<Option<(usize, u8)>>, i: int, id: usize, qty: nat)
    requires
        0 <= i < slots.len(),
    ensures
        ({
            let (first, left) = fill_empty(slots[i], id, qty);
            let (rest, left2) = fill_empty_all(slots.subrange(i + 1, slots.len() as int), id, left);
            fill_empty_all(slots.subrange(i, slots.len() as int), id, qty) == (seq![first] + rest, left2)
        }),
{
    assert(slots.subrange(i, slots.len() as int).drop_first() =~= slots.subrange(i + 1, slots.len() as int));
}

impl Default for Inventory {
    /// Thirty empty slots.
    fn default() -> (inv: Inventory)
        ensures
            inv@ == Seq::new(SLOT_COUNT as nat, |i: int| None::<(usize, u8)>),
    {
        let mut slots: Vec<Option<ItemStack>> = Vec::new();
        let mut i: usize = 0;
        while i < SLOT_COUNT
            invariant
                i <= SLOT_COUNT,
                slots@.len() == i,
                forall|j: int| 0 <= j < i ==> (#[trigger] slots@[j]).is_none(),
            decreases SLOT_COUNT - i,
        {
            slots.push(None);
            i = i + 1;
        }
        let inv = Inventory { slots };
        assert(inv@ =~= Seq::new(SLOT_COUNT as nat, |i: int| None::<(usize, u8)>));
        inv
    }
}

impl Inventory {
    /// The id and count of the stack in slot `i`, if any.
    pub fn slot(&self, i: usize) -> (s: Option<(usize, u8)>)
        requires
            i < self@.len(),
        ensures
            s == self@[i as int],
    {
        match &self.slots[i] {
            Some(stack) => Some((stack.item_id, stack.quantity)),
            None => None,
        }
    }

    /// Adds `qty` items of kind `id`, topping up stacks of that item first
    /// and then starting new stacks in empty slots. Returns how many items did
    /// not fit.
    pub fn add_item(&mut self, id: usize, qty: u32) -> (dropped: u32)
        requires
            id <= LAST_ITEM_ID,
        ensures
            final(self)@ == slots_after_adding(old(self)@, id, qty as nat),
            dropped == dropped_after_adding(old(self)@, id, qty as nat),
    {
        let ghost orig = self@;
        let ghost f = |s: Option<ItemStack>| slot_view(s);
        let mut qty = qty;
        let ghost target = top_up_all(orig, id, qty as nat);
        let n = self.slots.len();
        let mut i: usize = 0;
        assert(orig.subrange(0, n as int) =~= orig);
        while i < n
            invariant
                f == (|s: Option<ItemStack>| slot_view(s)),
                n == self.slots@.len(),
                orig.len() == n,
                i <= n,
                self@ == self.slots@.map_values(f),
                ({
                    let (rest, left) = top_up_all(orig.subrange(i as int, n as int), id, qty as nat);
                    &&& self@.subrange(i as int, n as int) == orig.subrange(i as int, n as int)
                    &&& self@.subrange(0, i as int) + rest == target.0
                    &&& left == target.1
                }),
            decreases n - i,
        {
            proof {
                lemma_top_up_step(orig, i as int, id, qty as nat);
            }
            let ghost before = self@;
            let ghost before_slots = self.slots@;
            let ghost q_before = qty;
            match &mut self.slots[i] {
                Some(stack) => {
                    if stack.item_id == id && stack.quantity < STACK_LIMIT {
                        let room = STACK_LIMIT - stack.quantity;
                        if qty <= room as u32 {
                            stack.quantity = stack.quantity + qty as u8;
                            qty = 0;
                        } else {
                            stack.quantity = STACK_LIMIT;
                            qty = qty - room as u32;
                        }
                    }
                },
                None => {},
            }
            proof {
                assert(self@ =~= self.slots@.map_values(f));
                assert(self@[i as int] == top_up(orig[i as int], id, q_before as nat).0);
                assert forall|j: int| i < j < n implies self@[j] == orig[j] by {
                    assert(self.slots@[j] == before_slots[j]);
                    assert(before.subrange(i as int, n as int)[j - i] == orig.subrange(i as int, n as int)[j - i]);
                }
                assert(self@.subrange(i + 1, n as int) =~= orig.subrange(i + 1, n as int));
                assert(self@.subrange(0, i + 1) =~= before.subrange(0, i as int).push(self@[i as int]));
                let (rest, left) = top_up_all(orig.subrange(i + 1, n as int), id, qty as nat);
                assert(self@.subrange(0, i + 1) + rest =~= before.subrange(0, i as int) + (seq![self@[i as int]] + rest));
            }
            i = i + 1;
        }
        proof {
            assert(self@.subrange(0, n as int) =~= self@);
            assert(orig.subrange(n as int, n as int) =~= Seq::<Option<(usize, u8)>>::empty());
            assert(self@ =~= target.0);
        }
        let ghost topped = self@;
        let ghost target2 = fill_empty_all(topped, id, qty as nat);
        let mut i: usize = 0;
        assert(topped.subrange(0, n as int) =~= topped);
        while i < n
            invariant
                f == (|s: Option<ItemStack>| slot_view(s)),
                n == self.slots@.len(),
                topped.len() == n,
                i <= n,
                id <= LAST_ITEM_ID,
                self@ == self.slots@.map_values(f),
                ({
                    let (rest, left) = fill_empty_all(topped.subrange(i as int, n as int), id, qty as nat);
                    &&& self@.subrange(i as int, n as int) == topped.subrange(i as int, n as int)
                    &&& self@.subrange(0, i as int) + rest == target2.0
                    &&& left == target2.1
                }),
            decreases n - i,
        {
            proof {
                lemma_fill_empty_step(topped, i as int, id, qty as nat);
            }
            let ghost before = self@;
            let ghost before_slots = self.slots@;
            let ghost q_before = qty;
            if self.slots[i].is_none() && qty > 0 {
                if qty <= STACK_LIMIT as u32 {
                    self.slots.set(i, Some(ItemStack::new(id, qty as u8)));
                    qty = 0;
                } else {
                    self.slots.set(i, Some(ItemStack::new(id, STACK_LIMIT)));
                    qty = qty - STACK_LIMIT as u32;
                }
            }
            proof {
                assert(self@ =~= self.slots@.map_values(f));
                assert(self@[i as int] == fill_empty(topped[i as int], id, q_before as nat).0);
                assert forall|j: int| i < j < n implies self@[j] == topped[j] by {
                    assert(self.slots@[j] == before_slots[j]);
                    assert(before.subrange(i as int, n as int)[j - i] == topped.subrange(i as int, n as int)[j - i]);
                }
                assert(self@.subrange(i + 1, n as int) =~= topped.subrange(i + 1, n as int));
                assert(self@.subrange(0, i + 1) =~= before.subrange(0, i as int).push(self@[i as int]));
                let (rest, left) = fill_empty_all(topped.subrange(i + 1, n as int), id, qty as nat);
                assert(self@.subrange(0, i + 1) + rest =~= before.subrange(0, i as int) + (seq![self@[i as int]] + rest));
            }
            i = i + 1;
        }
        proof {
            assert(self@.subrange(0, n as int) =~= self@);
            assert(topped.subrange(n as int, n as int) =~= Seq::<Option<(usize, u8)>>::empty());
            assert(self@ =~= target2.0);
        }
        qty
    }
}

} // verus!
