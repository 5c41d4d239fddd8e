//! Laws of the search: which free leaf serves a request, and when a block
//! can be placed at a given page.

use vstd::prelude::*;
use vstd::arithmetic::power2::*;
use crate::area::{Area, AreaState};
use crate::order::{
    lemma_aligned_block_ends_inside, lemma_close_multiples_are_equal, lemma_halves_aligned,
    pages_of, valid_order,
};

verus! {

impl Area {
    /// Every free leaf lies inside the area that holds it.
    pub proof fn lemma_free_leaves_in_range(self, page: int)
        requires
            self.wf(),
            self.free_leaves().contains_key(page),
        ensures
            self.base() <= page < self.end(),
            0 <= self.free_leaves()[page] <= self.order,
            page + pages_of(self.free_leaves()[page]) <= self.end(),
            page % (pages_of(self.free_leaves()[page]) as int) == 0,
        decreases self,
    {
        lemma_pow2_pos(self.order as nat);
        match self.state {
            AreaState::Split(b) => {
                lemma_pow2_unfold(self.order as nat);
                if b.right.free_leaves().contains_key(page) {
                    b.right.lemma_free_leaves_in_range(page);
                } else {
                    b.left.lemma_free_leaves_in_range(page);
                }
            },
            _ => {},
        }
    }

    /// The free leaves of the lower half all start below those of the upper
    /// half, so a page is the start of a free leaf in at most one half.
    pub proof fn lemma_halves_apart(self)
        requires
            self.wf(),
            self.state is Split,
        ensures
            forall|page: int| #[trigger]
                self.left().free_leaves().contains_key(page) ==> page < self.right().base()
                    && !self.right().free_leaves().contains_key(page),
            forall|page: int| #[trigger]
                self.right().free_leaves().contains_key(page) ==> self.right().base() <= page
                    && !self.left().free_leaves().contains_key(page),
    {
        assert forall|page: int| #[trigger]
            self.left().free_leaves().contains_key(page) implies page < self.right().base()
            && !self.right().free_leaves().contains_key(page) by {
            self.left().lemma_free_leaves_in_range(page);
            if self.right().free_leaves().contains_key(page) {
                self.right().lemma_free_leaves_in_range(page);
            }
        }
        assert forall|page: int| #[trigger]
            self.right().free_leaves().contains_key(page) implies self.right().base() <= page
            && !self.left().free_leaves().contains_key(page) by {
            self.right().lemma_free_leaves_in_range(page);
            if self.left().free_leaves().contains_key(page) {
                self.left().lemma_free_leaves_in_range(page);
            }
        }
    }

    /// `largest_free` lies between -1 and the order of the area.
    pub proof fn lemma_largest_free_range(self)
        requires
            self.wf(),
        ensures
            -1 <= self.largest_free() <= self.order,
        decreases self,
    {
        match self.state {
            AreaState::Split(b) => {
                b.left.lemma_largest_free_range();
                b.right.lemma_largest_free_range();
            },
            _ => {},
        }
    }

    /// No free leaf is larger than `largest_free` says.
    pub proof fn lemma_largest_free_bounds(self, page: int)
        requires
            self.wf(),
            self.free_leaves().contains_key(page),
        ensures
            self.free_leaves()[page] <= self.largest_free(),
        decreases self,
    {
        match self.state {
            AreaState::Split(b) => {
                if b.right.free_leaves().contains_key(page) {
                    b.right.lemma_largest_free_bounds(page);
                } else {
                    b.left.lemma_largest_free_bounds(page);
                }
            },
            _ => {},
        }
    }

    /// `largest_free` is -1 or the order of some free leaf, which this lemma
    /// returns the first page of.
    pub proof fn lemma_largest_free_is_reached(self) -> (page: int)
        requires
            self.wf(),
            self.largest_free() != -1,
        ensures
            self.free_leaves().contains_key(page),
            self.free_leaves()[page] == self.largest_free(),
        decreases self,
    {
        match self.state {
            AreaState::Split(b) => {
                self.lemma_halves_apart();
                if b.left.largest_free() >= b.right.largest_free() {
                    b.left.lemma_largest_free_is_reached()
                } else {
                    b.right.lemma_largest_free_is_reached()
                }
            },
            _ => self.base(),
        }
    }

    /// A fit is never smaller than the order asked for.
    pub proof fn lemma_fit_is_at_least(self, k: int)
        ensures
            self.best_fit(k) is Some ==> self.best_fit(k).unwrap() >= k,
        decreases self,
    {
        match self.state {
            AreaState::Split(b) => {
                b.left.lemma_fit_is_at_least(k);
                b.right.lemma_fit_is_at_least(k);
            },
            _ => {},
        }
    }

    /// A request of order `k` has a fit exactly when the largest free leaf is
    /// of order `k` or more.
    pub proof fn lemma_fit_iff_largest(self, k: int)
        requires
            0 <= k,
        ensures
            self.best_fit(k) is Some == (self.largest_free() >= k),
            self.best_fit(k) is Some ==> k <= self.best_fit(k).unwrap() <= self.largest_free(),
        decreases self,
    {
        match self.state {
            AreaState::Split(b) => {
                b.left.lemma_fit_iff_largest(k);
                b.right.lemma_fit_iff_largest(k);
            },
            _ => {},
        }
    }

    /// The best fit is the tightest: it is at least the order asked for, and
    /// no free leaf of at least that order is smaller.
    pub proof fn lemma_best_fit_is_tightest(self, k: int, page: int)
        requires
            self.wf(),
            self.free_leaves().contains_key(page),
            self.free_leaves()[page] >= k,
        ensures
            self.best_fit(k) is Some,
            k <= self.best_fit(k).unwrap() <= self.free_leaves()[page],
        decreases self,
    {
        match self.state {
            AreaState::Split(b) => {
                b.left.lemma_fit_is_at_least(k);
                b.right.lemma_fit_is_at_least(k);
                if b.right.free_leaves().contains_key(page) {
                    b.right.lemma_best_fit_is_tightest(k, page);
                } else {
                    b.left.lemma_best_fit_is_tightest(k, page);
                }
            },
            _ => {},
        }
    }

    /// A request is served from inside the area it is asked of.
    pub proof fn lemma_pick_in_range(self, k: int)
        requires
            self.wf(),
        ensures
            self.pick(k) is Some ==> self.base() <= self.pick(k).unwrap() < self.end(),
            self.pick(k) is Some == self.best_fit(k) is Some,
        decreases self,
    {
        lemma_pow2_pos(self.order as nat);
        match self.state {
            AreaState::Split(b) => {
                b.left.lemma_pick_in_range(k);
                b.right.lemma_pick_in_range(k);
                lemma_pow2_unfold(self.order as nat);
            },
            _ => {},
        }
    }

    /// The page picked for a request starts a free leaf whose order is the
    /// best fit.
    pub proof fn lemma_pick_is_best_fit(self, k: int)
        requires
            self.wf(),
            self.pick(k) is Some,
        ensures
            self.best_fit(k) is Some,
            self.free_leaves().contains_key(self.pick(k).unwrap()),
            self.free_leaves()[self.pick(k).unwrap()] == self.best_fit(k).unwrap(),
        decreases self,
    {
        match self.state {
            AreaState::Split(b) => {
                self.lemma_halves_apart();
                if self.prefers_left(k) {
                    b.left.lemma_pick_is_best_fit(k);
                } else {
                    b.right.lemma_pick_in_range(k);
                    b.right.lemma_pick_is_best_fit(k);
                }
            },
            _ => {},
        }
    }

    /// Among the free leaves whose order is the best fit, the page picked is
    /// the lowest.
    pub proof fn lemma_pick_is_lowest(self, k: int, page: int)
        requires
            self.wf(),
            self.best_fit(k) is Some,
            self.free_leaves().contains_key(page),
            self.free_leaves()[page] == self.best_fit(k).unwrap(),
        ensures
            self.pick(k) is Some,
            self.pick(k).unwrap() <= page,
        decreases self,
    {
        self.lemma_pick_in_range(k);
        match self.state {
            AreaState::Split(b) => {
                self.lemma_halves_apart();
                b.left.lemma_fit_is_at_least(k);
                b.right.lemma_fit_is_at_least(k);
                b.left.lemma_pick_in_range(k);
                b.right.lemma_pick_in_range(k);
                if b.right.free_leaves().contains_key(page) {
                    b.right.lemma_best_fit_is_tightest(k, page);
                    if !self.prefers_left(k) {
                        b.right.lemma_pick_is_lowest(k, page);
                    }
                } else {
                    b.left.lemma_best_fit_is_tightest(k, page);
                    b.left.lemma_pick_is_lowest(k, page);
                }
            },
            _ => {},
        }
    }

    /// An area aligned to its own size is aligned to every smaller order.
    pub proof fn lemma_aligned_to_smaller(self, k: int)
        requires
            valid_order(self.order as int),
            self.base() % (self.pages() as int) == 0,
            0 <= k <= self.order,
        ensures
            self.base() % (pages_of(k) as int) == 0,
        decreases self.order - k,
    {
        if k < self.order {
            lemma_halves_aligned(self.base(), self.order as nat);
            Area::free_leaf(self.page_number, (self.order - 1) as i32).lemma_aligned_to_smaller(k);
        }
    }

    /// The page picked for a request of order `k` can be allocated at that
    /// order.
    pub proof fn lemma_pick_can_place(self, k: int)
        requires
            self.wf(),
            0 <= k,
            self.pick(k) is Some,
        ensures
            self.can_place(self.pick(k).unwrap(), k),
        decreases self,
    {
        lemma_pow2_pos(self.order as nat);
        match self.state {
            AreaState::Free => {
                self.lemma_aligned_to_smaller(k);
            },
            AreaState::Allocated => {},
            AreaState::Split(b) => {
                lemma_pow2_unfold(self.order as nat);
                if self.prefers_left(k) {
                    b.left.lemma_pick_can_place(k);
                } else {
                    b.right.lemma_pick_can_place(k);
                }
            },
        }
    }

    /// A block that can be placed lies inside one free leaf, which this lemma
    /// returns the first page of.
    pub proof fn lemma_placeable_block_is_free(self, page: int, k: int) -> (leaf: int)
        requires
            self.wf(),
            self.can_place(page, k),
        ensures
            self.free_leaves().contains_key(leaf),
            leaf <= page,
            page + pages_of(k) <= leaf + pages_of(self.free_leaves()[leaf]),
        decreases self,
    {
        match self.state {
            AreaState::Split(b) => {
                self.lemma_halves_apart();
                lemma_pow2_unfold(self.order as nat);
                if page < b.right.base() {
                    b.left.lemma_placeable_block_is_free(page, k)
                } else {
                    b.right.lemma_placeable_block_is_free(page, k)
                }
            },
            _ => {
                lemma_aligned_block_ends_inside(self.base(), self.order as nat, page, k as nat);
                self.base()
            },
        }
    }

    /// An aligned block that lies inside a free leaf can be placed.
    pub proof fn lemma_free_block_is_placeable(self, page: int, k: int, leaf: int)
        requires
            self.wf(),
            0 <= k,
            page % (pages_of(k) as int) == 0,
            self.free_leaves().contains_key(leaf),
            leaf <= page,
            page + pages_of(k) <= leaf + pages_of(self.free_leaves()[leaf]),
        ensures
            self.can_place(page, k),
        decreases self,
    {
        self.lemma_free_leaves_in_range(leaf);
        lemma_pow2_pos(k as nat);
        let j = self.free_leaves()[leaf];
        if j < k {
            lemma_pow2_strictly_increases(j as nat, k as nat);
        }
        match self.state {
            AreaState::Split(b) => {
                lemma_pow2_unfold(self.order as nat);
                if b.right.free_leaves().contains_key(leaf) {
                    b.right.lemma_free_leaves_in_range(leaf);
                    b.right.lemma_free_block_is_placeable(page, k, leaf);
                } else {
                    b.left.lemma_free_leaves_in_range(leaf);
                    b.left.lemma_free_block_is_placeable(page, k, leaf);
                }
            },
            _ => {},
        }
    }

    /// A block that can be placed overlaps no allocated leaf.
    pub proof fn lemma_placeable_block_is_unallocated(self, page: int, k: int, other: int)
        requires
            self.wf(),
            self.can_place(page, k),
            self.allocations().contains_key(other),
        ensures
            other + pages_of(self.allocations()[other]) <= page || page + pages_of(k) <= other,
    {
        self.lemma_place_wf(page, k);
        self.lemma_place_allocations(page, k);
        self.place(page, k).lemma_allocations_disjoint(page, other);
    }

    /// In a tree without unmerged free buddies, an aligned block inside the
    /// tree that overlaps no allocated leaf can be placed: all of it is free.
    pub proof fn lemma_unallocated_block_is_placeable(self, page: int, k: int)
        requires
            self.wf(),
            self.coalesced(),
            0 <= k <= self.order,
            self.base() <= page < self.end(),
            page % (pages_of(k) as int) == 0,
            forall|other: int| #[trigger]
                self.allocations().contains_key(other) ==> other + pages_of(
                    self.allocations()[other],
                ) <= page || page + pages_of(k) <= other,
        ensures
            self.can_place(page, k),
        decreases self,
    {
        lemma_pow2_pos(k as nat);
        match self.state {
            AreaState::Free => {},
            AreaState::Allocated => {
                assert(self.allocations().contains_key(self.base()));
            },
            AreaState::Split(b) => {
                lemma_pow2_unfold(self.order as nat);
                if self.order == k {
                    let other = self.lemma_split_holds_allocation();
                    self.lemma_allocations_in_range(other);
                    lemma_pow2_pos(self.allocations()[other] as nat);
                    lemma_close_multiples_are_equal(self.base(), page, k as nat);
                } else if page < b.right.base() {
                    reveal_with_fuel(Area::wf, 2);
                    lemma_aligned_block_ends_inside(
                        b.left.base(),
                        b.left.order as nat,
                        page,
                        k as nat,
                    );
                    assert forall|other: int| #[trigger]
                        b.left.allocations().contains_key(other) implies other + pages_of(
                        b.left.allocations()[other],
                    ) <= page || page + pages_of(k) <= other by {
                        self.lemma_key_in_one_half(other);
                    }
                    b.left.lemma_unallocated_block_is_placeable(page, k);
                } else {
                    assert forall|other: int| #[trigger]
                        b.right.allocations().contains_key(other) implies other + pages_of(
                        b.right.allocations()[other],
                    ) <= page || page + pages_of(k) <= other by {
                        self.lemma_key_in_one_half(other);
                    }
                    b.right.lemma_unallocated_block_is_placeable(page, k);
                }
            },
        }
    }
}

} // verus!
