//! Areas: the nodes of the buddy tree.
//!
//! An [`Area`] describes one power-of-two-sized, power-of-two-aligned span of
//! pages. It is either a leaf, free or allocated, or it is split into two
//! buddies of half its size, which are areas themselves.

use vstd::prelude::*;
use vstd::arithmetic::power2::*;
use crate::order::{
    lemma_aligned_block_fits, lemma_halves_aligned, pages_in_order, pages_of, valid_order,
};

verus! {

/// One span of `2^order` pages starting at `page_number`.
#[derive(Debug)]
pub struct Area {
    /// The lowest page number of the area, a multiple of its size.
    pub page_number: usize,
    /// The power-of-two exponent of the area's size in pages.
    pub order: i32,
    /// Whether the area is free, allocated or split into two buddies.
    pub state: AreaState,
}

/// The three mutually exclusive states of an area.
#[derive(Debug)]
pub enum AreaState {
    /// A leaf that nobody holds.
    Free,
    /// A leaf handed out to a caller.
    Allocated,
    /// An inner node; its two halves live in one box.
    Split(Box<Buddies>),
}

/// The two halves of a split area, kept next to each other in memory.
#[derive(Debug)]
pub struct Buddies {
    /// The lower half.
    pub left: Area,
    /// The upper half.
    pub right: Area,
}

/// What freeing a page in a tree came to.
#[derive(Clone, Copy, Debug, PartialEq, Eq, Structural)]
pub enum FreeResult {
    /// The leaf that started at the page was allocated and is now free.
    Freed,
    /// No allocated leaf starts at the page; the tree is unchanged.
    NotAllocated,
}

/// The smaller of two fits, where a missing fit never wins.
pub open spec fn tighter_fit(a: Option<int>, b: Option<int>) -> Option<int> {
    match (a, b) {
        (Some(x), Some(y)) => if x <= y {
            a
        } else {
            b
        },
        (Some(_), None) => a,
        (None, _) => b,
    }
}

// The model: what a tree is and what allocating and freeing make of it.
impl Area {
    /// The first page of the area.
    pub open spec fn base(self) -> int {
        self.page_number as int
    }

    /// The number of pages the area spans.
    pub open spec fn pages(self) -> nat {
        pages_of(self.order as int)
    }

    /// One past the last page of the area.
    pub open spec fn end(self) -> int {
        self.base() + self.pages()
    }

    /// A free leaf of the given position and size.
    pub open spec fn free_leaf(page_number: usize, order: i32) -> Area {
        Area { page_number, order, state: AreaState::Free }
    }

    /// An allocated leaf of the given position and size.
    pub open spec fn allocated_leaf(page_number: usize, order: i32) -> Area {
        Area { page_number, order, state: AreaState::Allocated }
    }

    /// An inner node with the given halves.
    pub open spec fn split_node(page_number: usize, order: i32, left: Area, right: Area) -> Area {
        Area { page_number, order, state: AreaState::Split(Box::new(Buddies { left, right })) }
    }

    /// The lower half of a split area.
    pub open spec fn left(self) -> Area
        recommends
            self.state is Split,
    {
        self.state->Split_0.left
    }

    /// The upper half of a split area.
    pub open spec fn right(self) -> Area
        recommends
            self.state is Split,
    {
        self.state->Split_0.right
    }

    /// The structural invariant of the buddy tree: every area has a usable
    /// order and is aligned to its size, and the two halves of every split
    /// area are one order smaller, adjacent, and together cover their parent.
    pub open spec fn wf(self) -> bool
        decreases self,
    {
        &&& valid_order(self.order as int)
        &&& self.base() % (self.pages() as int) == 0
        &&& match self.state {
            AreaState::Split(b) => {
                &&& self.order > 0
                &&& b.left.order == self.order - 1
                &&& b.right.order == self.order - 1
                &&& b.left.base() == self.base()
                &&& b.right.base() == self.base() + pages_of(self.order - 1)
                &&& b.left.wf()
                &&& b.right.wf()
            },
            _ => true,
        }
    }

    /// No split area has two free leaves as its halves: free buddies are
    /// always merged.
    pub open spec fn coalesced(self) -> bool
        decreases self,
    {
        match self.state {
            AreaState::Split(b) => {
                &&& !(b.left.state is Free && b.right.state is Free)
                &&& b.left.coalesced()
                &&& b.right.coalesced()
            },
            _ => true,
        }
    }

    /// The allocated leaves of the tree, as a map from each leaf's first page
    /// to its order.
    pub open spec fn allocations(self) -> Map<int, int>
        decreases self,
    {
        match self.state {
            AreaState::Free => Map::empty(),
            AreaState::Allocated => Map::empty().insert(self.base(), self.order as int),
            AreaState::Split(b) => b.left.allocations().union_prefer_right(b.right.allocations()),
        }
    }

    /// The free leaves of the tree, as a map from each leaf's first page to
    /// its order.
    pub open spec fn free_leaves(self) -> Map<int, int>
        decreases self,
    {
        match self.state {
            AreaState::Free => Map::empty().insert(self.base(), self.order as int),
            AreaState::Allocated => Map::empty(),
            AreaState::Split(b) => b.left.free_leaves().union_prefer_right(b.right.free_leaves()),
        }
    }

    /// The greatest order of a free leaf in the tree, or -1 when the tree has
    /// no free leaf.
    pub open spec fn largest_free(self) -> int
        decreases self,
    {
        match self.state {
            AreaState::Free => self.order as int,
            AreaState::Allocated => -1,
            AreaState::Split(b) => if b.left.largest_free() >= b.right.largest_free() {
                b.left.largest_free()
            } else {
                b.right.largest_free()
            },
        }
    }

    /// The least order of a free leaf in the tree that is at least `k`, if the
    /// tree has such a leaf: the tightest fit for a request of order `k`.
    pub open spec fn best_fit(self, k: int) -> Option<int>
        decreases self,
    {
        match self.state {
            AreaState::Free => if self.order >= k {
                Some(self.order as int)
            } else {
                None
            },
            AreaState::Allocated => None,
            AreaState::Split(b) => tighter_fit(b.left.best_fit(k), b.right.best_fit(k)),
        }
    }

    /// Whether a request of order `k` is served from the lower half of a split
    /// area: the lower half has a fit, and the upper half has no tighter one.
    pub open spec fn prefers_left(self, k: int) -> bool
        recommends
            self.state is Split,
    {
        match (self.left().best_fit(k), self.right().best_fit(k)) {
            (Some(l), Some(r)) => l <= r,
            (Some(_), None) => true,
            (None, _) => false,
        }
    }

    /// The first page of the free leaf that serves a request of order `k`:
    /// the lowest-addressed one among the free leaves of the tightest fit.
    pub open spec fn pick(self, k: int) -> Option<int>
        decreases self,
    {
        match self.state {
            AreaState::Free => if self.order >= k {
                Some(self.base())
            } else {
                None
            },
            AreaState::Allocated => None,
            AreaState::Split(b) => if self.prefers_left(k) {
                b.left.pick(k)
            } else {
                b.right.pick(k)
            },
        }
    }

    /// Whether the block of order `k` at `page` lies inside one free leaf.
    pub open spec fn block_is_free(self, page: int, k: int) -> bool
        decreases self,
    {
        match self.state {
            AreaState::Free => true,
            AreaState::Allocated => false,
            AreaState::Split(b) => self.order > k && if page < b.right.base() {
                b.left.block_is_free(page, k)
            } else {
                b.right.block_is_free(page, k)
            },
        }
    }

    /// Whether the block of order `k` at `page` can be allocated: it is no
    /// larger than the area, lies within it, is aligned to its own size, and
    /// all of it is free.
    pub open spec fn can_place(self, page: int, k: int) -> bool {
        &&& 0 <= k <= self.order
        &&& self.base() <= page < self.end()
        &&& page % (pages_of(k) as int) == 0
        &&& self.block_is_free(page, k)
    }

    /// What a free leaf becomes when the block of order `k` that contains
    /// `page` is allocated in it: the leaf is halved until the block is
    /// reached, and the halves that do not hold the block stay free.
    pub open spec fn carve(page_number: usize, order: i32, page: int, k: int) -> Area
        decreases order,
    {
        if order <= k || order <= 0 {
            Area::allocated_leaf(page_number, order)
        } else {
            let below = (order - 1) as i32;
            let middle = (page_number + pages_of(order - 1)) as usize;
            if page < page_number + pages_of(order - 1) {
                Area::split_node(
                    page_number,
                    order,
                    Area::carve(page_number, below, page, k),
                    Area::free_leaf(middle, below),
                )
            } else {
                Area::split_node(
                    page_number,
                    order,
                    Area::free_leaf(page_number, below),
                    Area::carve(middle, below, page, k),
                )
            }
        }
    }

    /// The tree after the block of order `k` that contains `page` is
    /// allocated in the free leaf around it. An allocated leaf on the way to
    /// the block stays as it is.
    pub open spec fn place(self, page: int, k: int) -> Area
        decreases self,
    {
        match self.state {
            AreaState::Free => Area::carve(self.page_number, self.order, page, k),
            AreaState::Allocated => self,
            AreaState::Split(b) => if page < b.right.base() {
                Area::split_node(self.page_number, self.order, b.left.place(page, k), b.right)
            } else {
                Area::split_node(self.page_number, self.order, b.left, b.right.place(page, k))
            },
        }
    }

    /// Whether the tree has an allocated leaf that starts at `page`.
    pub open spec fn holds(self, page: int) -> bool
        decreases self,
    {
        match self.state {
            AreaState::Free => false,
            AreaState::Allocated => self.base() == page,
            AreaState::Split(b) => if page < b.right.base() {
                b.left.holds(page)
            } else {
                b.right.holds(page)
            },
        }
    }

    /// The tree after the allocated leaf at `page` is freed and merged with
    /// its free buddies as far up as possible. A tree that holds no such leaf
    /// stays as it is.
    pub open spec fn after_free(self, page: int) -> Area
        decreases self,
    {
        if !self.holds(page) {
            self
        } else {
            match self.state {
                AreaState::Split(b) => {
                    let left = if page < b.right.base() {
                        b.left.after_free(page)
                    } else {
                        b.left
                    };
                    let right = if page < b.right.base() {
                        b.right
                    } else {
                        b.right.after_free(page)
                    };
                    if left.state is Free && right.state is Free {
                        Area::free_leaf(self.page_number, self.order)
                    } else {
                        Area::split_node(self.page_number, self.order, left, right)
                    }
                },
                _ => Area::free_leaf(self.page_number, self.order),
            }
        }
    }
}

// The operations.
impl Area {
    /// Returns a new root area, free, from a base `page_number` and an `order`.
    ///
    /// `page_number` must be a multiple of the area's size, `1 << order`.
    pub fn new_root(page_number: usize, order: i32) -> (area: Area)
        requires
            valid_order(order as int),
            page_number as int % (pages_of(order as int) as int) == 0,
        ensures
            area == Area::free_leaf(page_number, order),
            area.wf(),
    {
        Area { page_number, order, state: AreaState::Free }
    }

    /// Returns the number of the first page within this area.
    pub fn start_page(&self) -> (page: usize)
        ensures
            page == self.base(),
    {
        self.page_number
    }

    /// Returns the byte address of the first page within this area, for pages
    /// of `page_size` bytes, unless that address is beyond the largest machine
    /// word.
    pub fn start_address(&self, page_size: usize) -> (address: Option<usize>)
        ensures
            address == (if self.base() * page_size <= usize::MAX {
                Some((self.base() * page_size) as usize)
            } else {
                None
            }),
    {
        self.page_number.checked_mul(page_size)
    }

    /// Returns the number of pages within this area.
    pub fn num_pages(&self) -> (n: usize)
        requires
            valid_order(self.order as int),
        ensures
            n == self.pages(),
    {
        pages_in_order(self.order)
    }

    /// Tells whether this area is a free leaf.
    pub fn is_free(&self) -> (free: bool)
        ensures
            free == (self.state is Free),
    {
        match self.state {
            AreaState::Free => true,
            _ => false,
        }
    }

    /// Splits this area into two free areas of half its size.
    ///
    /// Only a free area of more than one page can be split.
    pub fn split(&mut self)
        requires
            old(self).wf(),
            old(self).state is Free,
            old(self).order > 0,
        ensures
            final(self).wf(),
            *final(self) == Area::split_node(
                old(self).page_number,
                old(self).order,
                Area::free_leaf(old(self).page_number, (old(self).order - 1) as i32),
                Area::free_leaf(
                    (old(self).page_number + pages_of(old(self).order - 1)) as usize,
                    (old(self).order - 1) as i32,
                ),
            ),
    {
        proof {
            lemma_halves_aligned(self.base(), self.order as nat);
            lemma_aligned_block_fits(self.page_number, self.order as nat);
            lemma_pow2_pos((self.order - 1) as nat);
        }
        let half_num_pages = self.num_pages() / 2;
        self.state = AreaState::Split(
            Box::new(
                Buddies {
                    left: Area {
                        page_number: self.page_number,
                        order: self.order - 1,
                        state: AreaState::Free,
                    },
                    right: Area {
                        page_number: self.page_number + half_num_pages,
                        order: self.order - 1,
                        state: AreaState::Free,
                    },
                },
            ),
        );
        assert(self.left().wf());
        assert(self.right().wf());
    }

    /// Marks this area allocated and returns its first page, provided that it
    /// is a free leaf of exactly the order asked for. Otherwise nothing
    /// changes.
    pub fn try_allocate_exact(&mut self, order: i32) -> (page: Option<usize>)
        ensures
            page == (if old(self).state is Free && old(self).order == order {
                Some(old(self).page_number)
            } else {
                None
            }),
            *final(self) == (if page is Some {
                Area::allocated_leaf(old(self).page_number, old(self).order)
            } else {
                *old(self)
            }),
    {
        if self.is_free() && self.order == order {
            self.state = AreaState::Allocated;
            Some(self.page_number)
        } else {
            None
        }
    }

    /// The order of the largest free leaf in the tree, or -1 if no leaf is
    /// free.
    pub fn largest_free_order(&self) -> (order: i32)
        ensures
            order == self.largest_free(),
        decreases self,
    {
        match &self.state {
            AreaState::Free => self.order,
            AreaState::Allocated => -1,
            AreaState::Split(b) => {
                let l = b.left.largest_free_order();
                let r = b.right.largest_free_order();
                if l >= r {
                    l
                } else {
                    r
                }
            },
        }
    }

    /// The order of the smallest free leaf that can serve a request of order
    /// `requested_order`, if there is one.
    pub fn best_fit_order(&self, requested_order: i32) -> (fit: Option<i32>)
        ensures
            fit is Some == self.best_fit(requested_order as int) is Some,
            fit is Some ==> fit.unwrap() == self.best_fit(requested_order as int).unwrap(),
        decreases self,
    {
        match &self.state {
            AreaState::Free => if self.order >= requested_order {
                Some(self.order)
            } else {
                None
            },
            AreaState::Allocated => None,
            AreaState::Split(b) => {
                let l = b.left.best_fit_order(requested_order);
                let r = b.right.best_fit_order(requested_order);
                match (l, r) {
                    (Some(x), Some(y)) => if x <= y {
                        l
                    } else {
                        r
                    },
                    (Some(_), None) => l,
                    (None, _) => r,
                }
            },
        }
    }

    /// Searches the tree for the smallest free area of at least
    /// `requested_order`, taking the lowest-addressed one among equals,
    /// halves it down to that order, marks the resulting leaf allocated and
    /// returns its first page. Without such an area, or for a negative
    /// order, the tree is unchanged.
    pub fn find_and_allocate(&mut self, requested_order: i32) -> (page: Option<usize>)
        requires
            old(self).wf(),
        ensures
            final(self).wf(),
            page is Some == (0 <= requested_order <= old(self).largest_free()),
            page is Some ==> old(self).pick(requested_order as int) == Some(page.unwrap() as int),
            *final(self) == (if page is Some {
                old(self).place(page.unwrap() as int, requested_order as int)
            } else {
                *old(self)
            }),
        decreases old(self).order,
    {
        if requested_order < 0 {
            return None;
        }
        proof {
            self.lemma_pick_in_range(requested_order as int);
            self.lemma_fit_iff_largest(requested_order as int);
        }
        match &mut self.state {
            AreaState::Free => {
                if self.order > requested_order {
                    proof {
                        lemma_pow2_pos((self.order - 1) as nat);
                    }
                    self.split();
                    match &mut self.state {
                        AreaState::Split(b) => b.left.find_and_allocate(requested_order),
                        _ => None,
                    }
                } else {
                    self.try_allocate_exact(requested_order)
                }
            },
            AreaState::Allocated => None,
            AreaState::Split(b) => {
                // An exact fit in the lower half cannot be beaten, so the
                // upper half is searched only for want of one.
                let go_left = match b.left.best_fit_order(requested_order) {
                    Some(l) => l == requested_order || match b.right.best_fit_order(
                        requested_order,
                    ) {
                        Some(r) => l <= r,
                        None => true,
                    },
                    None => false,
                };
                proof {
                    b.right.lemma_fit_is_at_least(requested_order as int);
                    b.left.lemma_fit_iff_largest(requested_order as int);
                    b.right.lemma_fit_iff_largest(requested_order as int);
                    b.left.lemma_pick_in_range(requested_order as int);
                    b.right.lemma_pick_in_range(requested_order as int);
                }
                if go_left {
                    b.left.find_and_allocate(requested_order)
                } else {
                    b.right.find_and_allocate(requested_order)
                }
            },
        }
    }

    /// Allocates the block of order `order` that starts at `page`, halving the
    /// free leaf around it as far as needed. Nothing changes unless the whole
    /// block is free, aligned and inside this area.
    pub fn allocate_at(&mut self, page: usize, order: i32) -> (done: bool)
        requires
            old(self).wf(),
        ensures
            final(self).wf(),
            done == old(self).can_place(page as int, order as int),
            *final(self) == (if done {
                old(self).place(page as int, order as int)
            } else {
                *old(self)
            }),
    {
        if order < 0 || order > self.order || page < self.page_number {
            return false;
        }
        if page - self.page_number >= self.num_pages() || page % pages_in_order(order) != 0 {
            return false;
        }
        self.place_block(page, order)
    }

    /// The descent of `allocate_at`, for a block already known to be aligned
    /// and inside this area.
    fn place_block(&mut self, page: usize, order: i32) -> (done: bool)
        requires
            old(self).wf(),
            0 <= order <= old(self).order,
            old(self).base() <= page < old(self).end(),
            page as int % (pages_of(order as int) as int) == 0,
        ensures
            final(self).wf(),
            done == old(self).block_is_free(page as int, order as int),
            *final(self) == (if done {
                old(self).place(page as int, order as int)
            } else {
                *old(self)
            }),
        decreases old(self).order,
    {
        proof {
            if self.order > 0 {
                lemma_pow2_unfold(self.order as nat);
            }
        }
        match &mut self.state {
            AreaState::Allocated => false,
            AreaState::Free => {
                if self.order == order {
                    self.try_allocate_exact(order).is_some()
                } else {
                    self.split();
                    match &mut self.state {
                        AreaState::Split(b) => if page < b.right.page_number {
                            b.left.place_block(page, order)
                        } else {
                            b.right.place_block(page, order)
                        },
                        _ => false,
                    }
                }
            },
            AreaState::Split(b) => {
                if self.order == order {
                    false
                } else if page < b.right.page_number {
                    b.left.place_block(page, order)
                } else {
                    b.right.place_block(page, order)
                }
            },
        }
    }

    /// Frees the allocated leaf that starts at `target`, then merges free
    /// buddies on the way back up to the root.
    pub fn free(&mut self, target: usize) -> (res: FreeResult)
        requires
            old(self).wf(),
        ensures
            final(self).wf(),
            res == (if old(self).holds(target as int) {
                FreeResult::Freed
            } else {
                FreeResult::NotAllocated
            }),
            *final(self) == old(self).after_free(target as int),
        decreases old(self).order,
    {
        match &mut self.state {
            AreaState::Free => FreeResult::NotAllocated,
            AreaState::Allocated => {
                if self.page_number == target {
                    self.state = AreaState::Free;
                    FreeResult::Freed
                } else {
                    FreeResult::NotAllocated
                }
            },
            AreaState::Split(b) => {
                let res = if target < b.right.page_number {
                    b.left.free(target)
                } else {
                    b.right.free(target)
                };
                match res {
                    FreeResult::NotAllocated => FreeResult::NotAllocated,
                    FreeResult::Freed => {
                        let merge = b.left.is_free() && b.right.is_free();
                        if merge {
                            self.state = AreaState::Free;
                        }
                        FreeResult::Freed
                    },
                }
            },
        }
    }
}

} // verus!
