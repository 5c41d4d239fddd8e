//! Provides a buddy allocator.
//!
//! The buddy allocator hands out regions whose size in pages is a power of
//! two. The exponent is termed the `order` of the allocation. The allocator
//! works on page numbers throughout; turning them into addresses is left to
//! its callers.

use vstd::prelude::*;
use vstd::arithmetic::power2::lemma2_to64;
use crate::area::{Area, FreeResult};
use crate::order::{
    lemma_aligned_block_fits, order_for_pages, order_is_valid, order_of_pages, pages_in_order,
    pages_of, valid_order,
};

verus! {

/// Why a request to the allocator was turned down.
#[derive(Clone, Copy, Debug, PartialEq, Eq, Structural)]
pub enum AllocError {
    /// The root's first page is not a multiple of its size, or its order is
    /// not usable on this machine.
    InvalidConstruction,
    /// The request is larger than the whole region that the allocator manages.
    OutOfRange,
    /// No single free area is large enough for the request.
    NoFreeMemory,
    /// The requested block is misaligned, outside the region, or not wholly
    /// free.
    AddressUnavailable,
    /// No allocated area starts at the page to be freed.
    InvalidFree,
}

/// A buddy allocator over one contiguous, power-of-two-sized run of pages.
#[allow(non_camel_case_types)]
#[derive(Debug)]
pub struct buddy_allocator {
    /// The largest `Area`, which contains all allocatable pages.
    root: Area,
}

impl View for buddy_allocator {
    type V = Area;

    /// The allocator is viewed as its tree of areas.
    closed spec fn view(&self) -> Area {
        self.root
    }
}

impl buddy_allocator {
    /// The invariant of the allocator: its tree is well formed, and free
    /// buddies are always merged. It holds of every allocator there is.
    pub open spec fn wf(&self) -> bool {
        self@.wf() && self@.coalesced()
    }

    #[verifier::type_invariant]
    spec fn inv(&self) -> bool {
        self.root.wf() && self.root.coalesced()
    }

    /// What `allocate_pages` answers to a request for `num_pages` pages on a
    /// given tree.
    pub open spec fn allocation_result(tree: Area, num_pages: nat) -> Result<usize, AllocError> {
        let k = order_of_pages(num_pages) as int;
        if k > tree.order {
            Err(AllocError::OutOfRange)
        } else if tree.pick(k) is None {
            Err(AllocError::NoFreeMemory)
        } else {
            Ok(tree.pick(k).unwrap() as usize)
        }
    }

    /// What `allocate_at` answers to a request for `num_pages` pages at
    /// `page` on a given tree.
    pub open spec fn placement_result(tree: Area, page: usize, num_pages: nat) -> Result<
        usize,
        AllocError,
    > {
        let k = order_of_pages(num_pages) as int;
        if k > tree.order {
            Err(AllocError::OutOfRange)
        } else if !tree.can_place(page as int, k) {
            Err(AllocError::AddressUnavailable)
        } else {
            Ok(page)
        }
    }

    /// Creates an allocator for the `1 << order` pages that start at
    /// `page_number`, all of them free.
    ///
    /// `page_number` must be a multiple of `1 << order`.
    pub fn new(page_number: usize, order: i32) -> (allocator: buddy_allocator)
        requires
            valid_order(order as int),
            page_number as int % (pages_of(order as int) as int) == 0,
        ensures
            allocator.wf(),
            allocator@ == Area::free_leaf(page_number, order),
    {
        buddy_allocator { root: Area::new_root(page_number, order) }
    }

    /// Creates an allocator as `new` does, after checking that the order is
    /// usable and that `page_number` is a multiple of `1 << order`.
    pub fn try_new(page_number: usize, order: i32) -> (res: Result<buddy_allocator, AllocError>)
        ensures
            res is Ok == (valid_order(order as int) && page_number as int % (pages_of(
                order as int,
            ) as int) == 0),
            res matches Ok(allocator) ==> allocator.wf() && allocator@ == Area::free_leaf(
                page_number,
                order,
            ),
            res matches Err(e) ==> e == AllocError::InvalidConstruction,
    {
        if !order_is_valid(order) {
            return Err(AllocError::InvalidConstruction);
        }
        if page_number % pages_in_order(order) != 0 {
            return Err(AllocError::InvalidConstruction);
        }
        Ok(buddy_allocator::new(page_number, order))
    }

    /// Moves the tree out of the allocator to work on it, and leaves a single
    /// free page in its place until the tree is put back.
    fn take_root(&mut self) -> (root: Area)
        ensures
            root == old(self).root,
            root.wf(),
            root.coalesced(),
    {
        proof {
            use_type_invariant(&*self);
            lemma2_to64();
        }
        let mut root = Area::new_root(0, 0);
        std::mem::swap(&mut root, &mut self.root);
        root
    }

    /// Allocates the smallest power-of-two number of pages that holds
    /// `num_pages`, from the smallest free area that is large enough, and
    /// returns the first page.
    pub fn allocate_pages(&mut self, num_pages: usize) -> (res: Result<usize, AllocError>)
        ensures
            old(self).wf(),
            final(self).wf(),
            res == buddy_allocator::allocation_result(old(self)@, num_pages as nat),
            res is Ok == (order_of_pages(num_pages as nat) <= old(self)@.largest_free()),
            res is Err ==> final(self)@ == old(self)@,
            res is Ok ==> ({
                let page = res.unwrap() as int;
                let k = order_of_pages(num_pages as nat) as int;
                &&& old(self)@.can_place(page, k)
                &&& final(self)@ == old(self)@.place(page, k)
                &&& final(self)@.allocations() == old(self)@.allocations().insert(page, k)
            }),
    {
        proof {
            use_type_invariant(&*self);
        }
        let requested_order = order_for_pages(num_pages);
        proof {
            self.root.lemma_largest_free_range();
        }
        if requested_order > self.root.order {
            return Err(AllocError::OutOfRange);
        }
        proof {
            self.root.lemma_fit_iff_largest(requested_order as int);
            self.root.lemma_pick_in_range(requested_order as int);
            if self.root.pick(requested_order as int) is Some {
                self.root.lemma_pick_can_place(requested_order as int);
                let page = self.root.pick(requested_order as int).unwrap();
                self.root.lemma_place_wf(page, requested_order as int);
                self.root.lemma_place_allocations(page, requested_order as int);
            }
        }
        let mut root = self.take_root();
        let found = root.find_and_allocate(requested_order);
        self.root = root;
        match found {
            Some(page) => Ok(page),
            None => Err(AllocError::NoFreeMemory),
        }
    }

    /// Allocates the smallest power-of-two number of pages that holds
    /// `num_pages` at exactly `page`, which must be aligned to that size and
    /// wholly free.
    pub fn allocate_at(&mut self, page: usize, num_pages: usize) -> (res: Result<usize, AllocError>)
        ensures
            old(self).wf(),
            final(self).wf(),
            res == buddy_allocator::placement_result(old(self)@, page, num_pages as nat),
            res is Err ==> final(self)@ == old(self)@,
            res is Ok ==> ({
                let k = order_of_pages(num_pages as nat) as int;
                &&& final(self)@ == old(self)@.place(page as int, k)
                &&& final(self)@.allocations() == old(self)@.allocations().insert(page as int, k)
            }),
    {
        proof {
            use_type_invariant(&*self);
        }
        let requested_order = order_for_pages(num_pages);
        if requested_order > self.root.order {
            return Err(AllocError::OutOfRange);
        }
        proof {
            if self.root.can_place(page as int, requested_order as int) {
                self.root.lemma_place_wf(page as int, requested_order as int);
                self.root.lemma_place_allocations(page as int, requested_order as int);
            }
        }
        let mut root = self.take_root();
        let done = root.allocate_at(page, requested_order);
        self.root = root;
        if done {
            Ok(page)
        } else {
            Err(AllocError::AddressUnavailable)
        }
    }

    /// Frees the allocation that starts at `page` and merges it with its free
    /// buddies as far up as possible.
    pub fn free_pages(&mut self, page: usize) -> (res: Result<(), AllocError>)
        ensures
            old(self).wf(),
            final(self).wf(),
            res == (if old(self)@.allocations().contains_key(page as int) {
                Ok::<(), AllocError>(())
            } else {
                Err::<(), AllocError>(AllocError::InvalidFree)
            }),
            final(self)@ == old(self)@.after_free(page as int),
            final(self)@.allocations() == old(self)@.allocations().remove(page as int),
            res is Err ==> final(self)@ == old(self)@,
    {
        proof {
            use_type_invariant(&*self);
            self.root.lemma_holds_iff_allocated(page as int);
            self.root.lemma_after_free_wf(page as int);
            self.root.lemma_after_free_allocations(page as int);
        }
        let mut root = self.take_root();
        let res = root.free(page);
        self.root = root;
        match res {
            FreeResult::Freed => Ok(()),
            FreeResult::NotAllocated => Err(AllocError::InvalidFree),
        }
    }

    /// The order of the largest free area, or -1 when nothing is free: a
    /// request of a larger order cannot succeed.
    pub fn largest_free_order(&self) -> (order: i32)
        ensures
            self.wf(),
            order == self@.largest_free(),
    {
        proof {
            use_type_invariant(self);
        }
        self.root.largest_free_order()
    }

    /// Allocating pages and then freeing the page that was returned gives
    /// back the tree as it was before, leaf for leaf: after a successful
    /// `allocate_pages`, `free_pages` of its answer succeeds and restores
    /// the view.
    pub proof fn lemma_allocate_then_free(tree: Area, num_pages: nat)
        requires
            tree.wf(),
            tree.coalesced(),
            buddy_allocator::allocation_result(tree, num_pages) is Ok,
        ensures
            ({
                let page = buddy_allocator::allocation_result(tree, num_pages).unwrap() as int;
                let allocated = tree.place(page, order_of_pages(num_pages) as int);
                &&& allocated.allocations().contains_key(page)
                &&& allocated.after_free(page) == tree
            }),
    {
        let k = order_of_pages(num_pages) as int;
        lemma_aligned_block_fits(tree.page_number, tree.order as nat);
        tree.lemma_pick_in_range(k);
        tree.lemma_pick_can_place(k);
        let page = tree.pick(k).unwrap();
        tree.lemma_place_then_free(page, k);
        tree.lemma_place_wf(page, k);
        tree.place(page, k).lemma_holds_iff_allocated(page);
    }

    /// Freeing the same page twice fails the second time: once `free_pages`
    /// has freed a page, the view holds no allocation at it, so `free_pages`
    /// answers `InvalidFree`.
    pub proof fn lemma_free_pages_twice(tree: Area, page: int)
        requires
            tree.wf(),
            tree.allocations().contains_key(page),
        ensures
            !tree.after_free(page).allocations().contains_key(page),
    {
        tree.lemma_holds_iff_allocated(page);
        tree.lemma_free_twice(page);
    }
}

} // verus!
