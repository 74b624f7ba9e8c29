//! Item structs: single items, stacks of them, and per-tile stashes.

use crate::console::Color;
use crate::ui::Draw;
use vstd::prelude::*;

verus! {

/// A single kind of item, reduced to what the renderer needs.
#[derive(Clone, Copy, Debug)]
pub struct Item {
    pub c: char,
    pub color: Color,
}

impl Draw for Item {
    fn draw_c(&self) -> char {
        self.c
    }

    fn draw_color(&self) -> Color {
        self.color
    }
}

/// A stack of identical items.
#[derive(Clone, Copy, Debug)]
pub struct ItemStack {
    pub item: Item,
    pub amount: usize,
}

impl Draw for ItemStack {
    fn draw_c(&self) -> char {
        self.item.c
    }

    fn draw_color(&self) -> Color {
        self.item.color
    }
}

/// The pile of item stacks lying on one tile.
#[derive(Clone, Debug)]
pub struct ItemStash {
    items: Vec<ItemStack>,
}

impl ItemStash {
    /// The stacks of this stash, oldest first, as a mathematical sequence.
    pub closed spec fn stacks(&self) -> Seq<ItemStack> {
        self.items@
    }

    /// The number of stacks in the stash.
    pub fn len(&self) -> (r: usize)
        ensures
            r == self.stacks().len(),
    {
        self.items.len()
    }

    /// True if the stash holds no stacks.
    pub fn is_empty(&self) -> (r: bool)
        ensures
            r == (self.stacks().len() == 0),
    {
        self.len() == 0
    }

    /// Adds a stack on top of the stash.
    pub fn add(&mut self, i: ItemStack)
        ensures
            final (self).stacks() == old(self).stacks().push(i),
    {
        self.items.push(i);
    }

    /// Removes and returns the stack at `index`.
    pub fn remove(&mut self, index: usize) -> (r: ItemStack)
        requires
            index < old(self).stacks().len(),
        ensures
            r == old(self).stacks()[index as int],
            final (self).stacks() == old(self).stacks().remove(index as int),
    {
        self.items.remove(index)
    }

    /// The top (most recently added) stack.
    pub fn top(&self) -> (r: &ItemStack)
        requires
            self.stacks().len() >= 1,
        ensures
            *r == self.stacks().last(),
    {
        &self.items[self.items.len() - 1]
    }
}

impl Default for ItemStash {
    /// An empty stash.
    fn default() -> (r: ItemStash)
        ensures
            r.stacks().len() == 0,
    {
        ItemStash { items: Vec::new() }
    }
}

} // verus!
