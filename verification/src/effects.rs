//! Laws of allocating and freeing: what the two do to the tree and to its
//! allocated leaves, and how they undo each other.

use vstd::prelude::*;
use vstd::arithmetic::power2::*;
use crate::area::{Area, AreaState};
use crate::order::{
    lemma_aligned_block_fits, lemma_close_multiples_are_equal, lemma_halves_aligned, pages_of,
};

verus! {

impl Area {
    /// What carving a block out of a free leaf gives: a well-formed tree
    /// without free buddies whose one allocated leaf is the block, and which
    /// goes back to the free leaf when the block is freed.
    pub proof fn lemma_carve(page_number: usize, order: i32, page: int, k: int)
        requires
            Area::free_leaf(page_number, order).wf(),
            Area::free_leaf(page_number, order).can_place(page, k),
        ensures
            Area::carve(page_number, order, page, k).wf(),
            Area::carve(page_number, order, page, k).coalesced(),
            Area::carve(page_number, order, page, k).page_number == page_number,
            Area::carve(page_number, order, page, k).order == order,
            !(Area::carve(page_number, order, page, k).state is Free),
            Area::carve(page_number, order, page, k).allocations() == Map::<int, int>::empty().insert(
                page,
                k,
            ),
            Area::carve(page_number, order, page, k).holds(page),
            Area::carve(page_number, order, page, k).after_free(page) == Area::free_leaf(
                page_number,
                order,
            ),
        decreases order,
    {
        let carved = Area::carve(page_number, order, page, k);
        if order <= k || order <= 0 {
            lemma_close_multiples_are_equal(page_number as int, page, k as nat);
        } else {
            lemma_halves_aligned(page_number as int, order as nat);
            lemma_aligned_block_fits(page_number, order as nat);
            lemma_pow2_pos((order - 1) as nat);
            let below = (order - 1) as i32;
            let middle = (page_number + pages_of(order - 1)) as usize;
            assert(Area::free_leaf(page_number, below).wf());
            assert(Area::free_leaf(middle, below).wf());
            assert(Area::free_leaf(page_number, below).coalesced());
            assert(Area::free_leaf(middle, below).coalesced());
            if page < page_number + pages_of(order - 1) {
                Area::lemma_carve(page_number, below, page, k);
            } else {
                Area::lemma_carve(middle, below, page, k);
            }
            assert(carved.allocations() =~= carved.left().allocations().union_prefer_right(
                carved.right().allocations(),
            ));
        }
    }

    /// Allocating a block that can be placed keeps the tree well formed and
    /// free of unmerged buddies, and never leaves the area it was placed in
    /// a free leaf.
    pub proof fn lemma_place_wf(self, page: int, k: int)
        requires
            self.wf(),
            self.can_place(page, k),
        ensures
            self.place(page, k).wf(),
            self.place(page, k).page_number == self.page_number,
            self.place(page, k).order == self.order,
            !(self.place(page, k).state is Free),
            self.coalesced() ==> self.place(page, k).coalesced(),
        decreases self,
    {
        match self.state {
            AreaState::Free => {
                Area::lemma_carve(self.page_number, self.order, page, k);
            },
            AreaState::Allocated => {},
            AreaState::Split(b) => {
                lemma_pow2_unfold(self.order as nat);
                if page < b.right.base() {
                    b.left.lemma_place_wf(page, k);
                } else {
                    b.right.lemma_place_wf(page, k);
                }
            },
        }
    }

    /// Allocating a block adds exactly that block to the allocations.
    pub proof fn lemma_place_allocations(self, page: int, k: int)
        requires
            self.wf(),
            self.can_place(page, k),
        ensures
            !self.allocations().contains_key(page),
            self.place(page, k).allocations() == self.allocations().insert(page, k),
        decreases self,
    {
        match self.state {
            AreaState::Free => {
                Area::lemma_carve(self.page_number, self.order, page, k);
            },
            AreaState::Allocated => {},
            AreaState::Split(b) => {
                lemma_pow2_unfold(self.order as nat);
                lemma_pow2_pos((self.order - 1) as nat);
                b.left.lemma_keys_in_range();
                b.right.lemma_keys_in_range();
                if page < b.right.base() {
                    b.left.lemma_place_allocations(page, k);
                    assert(self.place(page, k).allocations() =~= b.left.place(
                        page,
                        k,
                    ).allocations().union_prefer_right(b.right.allocations()));
                } else {
                    b.right.lemma_place_allocations(page, k);
                    assert(self.place(page, k).allocations()
                        =~= b.left.allocations().union_prefer_right(
                        b.right.place(page, k).allocations(),
                    ));
                }
            },
        }
    }

    /// Freeing keeps the tree well formed and free of unmerged buddies.
    pub proof fn lemma_after_free_wf(self, page: int)
        requires
            self.wf(),
        ensures
            self.after_free(page).wf(),
            self.after_free(page).page_number == self.page_number,
            self.after_free(page).order == self.order,
            self.coalesced() ==> self.after_free(page).coalesced(),
        decreases self,
    {
        match self.state {
            AreaState::Split(b) => {
                b.left.lemma_after_free_wf(page);
                b.right.lemma_after_free_wf(page);
            },
            _ => {},
        }
    }

    /// Freeing the leaf at a page removes exactly that leaf from the
    /// allocations.
    pub proof fn lemma_after_free_allocations(self, page: int)
        requires
            self.wf(),
        ensures
            self.after_free(page).allocations() == self.allocations().remove(page),
        decreases self,
    {
        self.lemma_holds_iff_allocated(page);
        match self.state {
            AreaState::Split(b) => {
                lemma_pow2_pos((self.order - 1) as nat);
                b.left.lemma_keys_in_range();
                b.right.lemma_keys_in_range();
                b.left.lemma_after_free_allocations(page);
                b.right.lemma_after_free_allocations(page);
                b.left.lemma_holds_iff_allocated(page);
                b.right.lemma_holds_iff_allocated(page);
                b.left.lemma_after_free_wf(page);
                b.right.lemma_after_free_wf(page);
            },
            _ => {},
        }
    }

    /// Allocating a block and freeing it again gives back the tree as it was,
    /// leaf for leaf, provided that the tree had no unmerged free buddies.
    pub proof fn lemma_place_then_free(self, page: int, k: int)
        requires
            self.wf(),
            self.coalesced(),
            self.can_place(page, k),
        ensures
            self.place(page, k).holds(page),
            self.place(page, k).after_free(page) == self,
        decreases self,
    {
        match self.state {
            AreaState::Free => {
                Area::lemma_carve(self.page_number, self.order, page, k);
            },
            AreaState::Allocated => {},
            AreaState::Split(b) => {
                lemma_pow2_unfold(self.order as nat);
                if page < b.right.base() {
                    b.left.lemma_place_then_free(page, k);
                    b.left.lemma_place_wf(page, k);
                } else {
                    b.right.lemma_place_then_free(page, k);
                    b.right.lemma_place_wf(page, k);
                }
            },
        }
    }

    /// Freeing undoes allocating, whatever happened in between: if a tree
    /// holds the allocated leaves of another tree and one block more, then
    /// freeing that block gives the other tree.
    pub proof fn lemma_free_undoes_allocation(self, other: Area, page: int, k: int)
        requires
            self.wf(),
            self.coalesced(),
            other.wf(),
            other.coalesced(),
            self.page_number == other.page_number,
            self.order == other.order,
            !other.allocations().contains_key(page),
            self.allocations() == other.allocations().insert(page, k),
        ensures
            self.holds(page),
            self.after_free(page) == other,
    {
        self.lemma_holds_iff_allocated(page);
        self.lemma_after_free_wf(page);
        self.lemma_after_free_allocations(page);
        assert(self.after_free(page).allocations() =~= other.allocations());
        self.after_free(page).lemma_allocations_decide_tree(other);
    }

    /// Once the leaf at a page is freed, the tree holds no allocated leaf at
    /// that page, so freeing it a second time fails.
    pub proof fn lemma_free_twice(self, page: int)
        requires
            self.wf(),
            self.holds(page),
        ensures
            !self.after_free(page).holds(page),
            !self.after_free(page).allocations().contains_key(page),
    {
        self.lemma_after_free_allocations(page);
        self.lemma_after_free_wf(page);
        self.after_free(page).lemma_holds_iff_allocated(page);
    }
}

} // verus!
