use kernel_support::area::{Area, AreaState, FreeResult};
use kernel_support::buddy::{buddy_allocator, AllocError};
use kernel_support::order::{order_for_pages, order_is_valid, pages_in_order};

/// The leaves of a tree from the lowest address up: first page, order, allocated.
fn leaves(area: &Area, out: &mut Vec<(usize, i32, bool)>) {
    match &area.state {
        AreaState::Free => out.push((area.page_number, area.order, false)),
        AreaState::Allocated => out.push((area.page_number, area.order, true)),
        AreaState::Split(b) => {
            leaves(&b.left, out);
            leaves(&b.right, out);
        }
    }
}

fn leaves_of(area: &Area) -> Vec<(usize, i32, bool)> {
    let mut out = Vec::new();
    leaves(area, &mut out);
    out
}

/// Checks the shape of every split area and that free buddies are merged.
fn check_shape(area: &Area, merged: bool) {
    assert_eq!(area.page_number % (1usize << area.order), 0);
    if let AreaState::Split(b) = &area.state {
        assert_eq!(b.left.order, area.order - 1);
        assert_eq!(b.right.order, area.order - 1);
        assert_eq!(b.left.page_number, area.page_number);
        assert_eq!(b.right.page_number, b.left.page_number + (1usize << b.left.order));
        assert!(b.right.page_number > b.left.page_number);
        if merged {
            assert!(!(b.left.is_free() && b.right.is_free()));
        }
        check_shape(&b.left, merged);
        check_shape(&b.right, merged);
    }
}

#[test]
fn order_for_pages_rounds_up_to_a_power_of_two() {
    assert_eq!(order_for_pages(0), 0);
    assert_eq!(order_for_pages(1), 0);
    assert_eq!(order_for_pages(2), 1);
    assert_eq!(order_for_pages(3), 2);
    assert_eq!(order_for_pages(4), 2);
    assert_eq!(order_for_pages(5), 3);
    assert_eq!(order_for_pages(8), 3);
    assert_eq!(order_for_pages(9), 4);
    assert_eq!(order_for_pages(1 << 20), 20);
    assert_eq!(order_for_pages((1 << 20) + 1), 21);
}

#[test]
fn order_for_pages_of_the_largest_counts() {
    let top = 1usize << (usize::BITS - 1);
    assert_eq!(order_for_pages(top), usize::BITS as i32 - 1);
    assert_eq!(order_for_pages(top + 1), usize::BITS as i32);
    assert_eq!(order_for_pages(usize::MAX), usize::BITS as i32);
}

#[test]
fn pages_in_order_is_a_shift() {
    assert_eq!(pages_in_order(0), 1);
    assert_eq!(pages_in_order(1), 2);
    assert_eq!(pages_in_order(4), 16);
    assert_eq!(pages_in_order(usize::BITS as i32 - 1), 1usize << (usize::BITS - 1));
}

#[test]
fn order_is_valid_below_the_word_size() {
    assert!(order_is_valid(0));
    assert!(order_is_valid(usize::BITS as i32 - 1));
    assert!(!order_is_valid(usize::BITS as i32));
    assert!(!order_is_valid(-1));
    assert!(!order_is_valid(i32::MIN));
}

#[test]
fn new_root_is_one_free_leaf() {
    let root = Area::new_root(32, 4);
    assert_eq!(root.start_page(), 32);
    assert_eq!(root.num_pages(), 16);
    assert!(root.is_free());
    assert_eq!(leaves_of(&root), vec![(32, 4, false)]);
}

#[test]
fn start_address_multiplies_by_the_page_size() {
    let root = Area::new_root(32, 4);
    assert_eq!(root.start_address(4096), Some(32 * 4096));
    assert_eq!(root.start_address(1), Some(32));
    assert_eq!(root.start_address(0), Some(0));
    let high = Area::new_root(1usize << (usize::BITS - 4), 0);
    assert_eq!(high.start_address(4096), None);
    assert_eq!(high.start_address(8), Some(1usize << (usize::BITS - 1)));
}

#[test]
fn split_makes_two_free_halves() {
    let mut root = Area::new_root(16, 3);
    root.split();
    assert_eq!(leaves_of(&root), vec![(16, 2, false), (20, 2, false)]);
    assert!(!root.is_free());
    check_shape(&root, false);
}

#[test]
fn try_allocate_exact_takes_only_a_free_leaf_of_that_order() {
    let mut leaf = Area::new_root(8, 2);
    assert_eq!(leaf.try_allocate_exact(1), None);
    assert_eq!(leaf.try_allocate_exact(3), None);
    assert!(leaf.is_free());
    assert_eq!(leaf.try_allocate_exact(2), Some(8));
    assert_eq!(leaves_of(&leaf), vec![(8, 2, true)]);
    assert_eq!(leaf.try_allocate_exact(2), None);
    let mut inner = Area::new_root(8, 2);
    inner.split();
    assert_eq!(inner.try_allocate_exact(2), None);
    assert_eq!(leaves_of(&inner), vec![(8, 1, false), (10, 1, false)]);
}

#[test]
fn find_and_allocate_halves_down_to_the_order() {
    let mut root = Area::new_root(0, 4);
    assert_eq!(root.find_and_allocate(1), Some(0));
    assert_eq!(
        leaves_of(&root),
        vec![(0, 1, true), (2, 1, false), (4, 2, false), (8, 3, false)]
    );
    check_shape(&root, true);
}

#[test]
fn find_and_allocate_fails_without_a_fit() {
    let mut root = Area::new_root(0, 2);
    assert_eq!(root.find_and_allocate(3), None);
    assert_eq!(leaves_of(&root), vec![(0, 2, false)]);
    assert_eq!(root.find_and_allocate(2), Some(0));
    assert_eq!(root.find_and_allocate(0), None);
    assert_eq!(leaves_of(&root), vec![(0, 2, true)]);
}

#[test]
fn find_and_allocate_prefers_the_tightest_fit() {
    let mut root = Area::new_root(0, 4);
    assert!(root.allocate_at(8, 0));
    assert_eq!(
        leaves_of(&root),
        vec![(0, 3, false), (8, 0, true), (9, 0, false), (10, 1, false), (12, 2, false)]
    );
    assert_eq!(root.best_fit_order(0), Some(0));
    assert_eq!(root.best_fit_order(1), Some(1));
    assert_eq!(root.best_fit_order(3), Some(3));
    assert_eq!(root.best_fit_order(4), None);
    // The free single page at 9 is a tighter fit than the eight free pages at 0.
    assert_eq!(root.find_and_allocate(0), Some(9));
    assert_eq!(root.find_and_allocate(1), Some(10));
    assert_eq!(root.find_and_allocate(2), Some(12));
    assert_eq!(root.find_and_allocate(0), Some(0));
    check_shape(&root, true);
}

#[test]
fn find_and_allocate_takes_the_lowest_address_among_equal_fits() {
    let mut root = Area::new_root(0, 3);
    assert!(root.allocate_at(0, 1));
    assert!(root.allocate_at(4, 1));
    assert_eq!(
        leaves_of(&root),
        vec![(0, 1, true), (2, 1, false), (4, 1, true), (6, 1, false)]
    );
    assert_eq!(root.find_and_allocate(1), Some(2));
    assert_eq!(root.find_and_allocate(1), Some(6));
    assert_eq!(root.find_and_allocate(1), None);
}

#[test]
fn area_free_reports_what_it_did() {
    let mut root = Area::new_root(0, 2);
    assert_eq!(root.free(0), FreeResult::NotAllocated);
    assert_eq!(root.find_and_allocate(0), Some(0));
    assert_eq!(root.free(1), FreeResult::NotAllocated);
    assert_eq!(root.free(2), FreeResult::NotAllocated);
    assert_eq!(root.free(100), FreeResult::NotAllocated);
    assert_eq!(root.free(0), FreeResult::Freed);
    assert_eq!(leaves_of(&root), vec![(0, 2, false)]);
    assert_eq!(root.free(0), FreeResult::NotAllocated);
}

#[test]
fn area_free_leaves_unmerged_buddies_alone_when_it_fails() {
    let mut root = Area::new_root(0, 1);
    root.split();
    assert_eq!(root.free(0), FreeResult::NotAllocated);
    assert_eq!(leaves_of(&root), vec![(0, 0, false), (1, 0, false)]);
}

#[test]
fn largest_free_order_of_areas() {
    let mut root = Area::new_root(0, 3);
    assert_eq!(root.largest_free_order(), 3);
    assert_eq!(root.find_and_allocate(0), Some(0));
    assert_eq!(root.largest_free_order(), 2);
    assert!(root.allocate_at(4, 2));
    assert_eq!(root.largest_free_order(), 1);
    assert!(root.allocate_at(2, 1));
    assert_eq!(root.largest_free_order(), 0);
    assert!(root.allocate_at(1, 0));
    assert_eq!(root.largest_free_order(), -1);
}

#[test]
fn allocate_at_refuses_what_is_not_wholly_free_and_aligned() {
    let mut root = Area::new_root(16, 3);
    assert!(!root.allocate_at(17, 1)); // misaligned
    assert!(!root.allocate_at(8, 1)); // below the area
    assert!(!root.allocate_at(24, 0)); // above the area
    assert!(!root.allocate_at(16, 4)); // larger than the area
    assert!(!root.allocate_at(16, -1)); // no such order
    assert_eq!(leaves_of(&root), vec![(16, 3, false)]);
    assert!(root.allocate_at(18, 1));
    assert_eq!(
        leaves_of(&root),
        vec![(16, 1, false), (18, 1, true), (20, 2, false)]
    );
    assert!(!root.allocate_at(18, 1)); // allocated
    assert!(!root.allocate_at(18, 0)); // inside an allocated leaf
    assert!(!root.allocate_at(19, 0)); // inside an allocated leaf
    assert!(!root.allocate_at(16, 2)); // partly allocated
    assert!(!root.allocate_at(16, 3)); // partly allocated
    assert_eq!(
        leaves_of(&root),
        vec![(16, 1, false), (18, 1, true), (20, 2, false)]
    );
    assert!(root.allocate_at(20, 2));
    assert!(root.allocate_at(17, 0));
    assert_eq!(
        leaves_of(&root),
        vec![(16, 0, false), (17, 0, true), (18, 1, true), (20, 2, true)]
    );
    check_shape(&root, true);
}

#[test]
fn allocate_at_refuses_an_area_split_more_finely() {
    let mut root = Area::new_root(0, 2);
    root.split();
    assert!(!root.allocate_at(0, 2));
    assert_eq!(leaves_of(&root), vec![(0, 1, false), (2, 1, false)]);
}

#[test]
fn new_allocator_is_wholly_free() {
    let allocator = buddy_allocator::new(64, 6);
    assert_eq!(allocator.largest_free_order(), 6);
}

#[test]
fn try_new_checks_alignment_and_order() {
    assert!(buddy_allocator::try_new(0, 4).is_ok());
    assert!(buddy_allocator::try_new(48, 4).is_ok());
    assert!(buddy_allocator::try_new(7, 0).is_ok());
    assert!(buddy_allocator::try_new(0, usize::BITS as i32 - 1).is_ok());
    assert_eq!(buddy_allocator::try_new(8, 4).err(), Some(AllocError::InvalidConstruction));
    assert_eq!(buddy_allocator::try_new(1, 1).err(), Some(AllocError::InvalidConstruction));
    assert_eq!(buddy_allocator::try_new(0, -1).err(), Some(AllocError::InvalidConstruction));
    assert_eq!(
        buddy_allocator::try_new(0, usize::BITS as i32).err(),
        Some(AllocError::InvalidConstruction)
    );
    assert_eq!(buddy_allocator::try_new(48, 4).unwrap().largest_free_order(), 4);
}

#[test]
fn three_pages_then_single_pages_fill_from_the_left() {
    let mut allocator = buddy_allocator::new(0, 4);
    assert_eq!(allocator.allocate_pages(3), Ok(0));
    assert_eq!(allocator.largest_free_order(), 3);
    assert_eq!(allocator.allocate_pages(1), Ok(4));
    assert_eq!(allocator.allocate_pages(1), Ok(5));
    assert_eq!(allocator.allocate_pages(1), Ok(6));
    assert_eq!(allocator.largest_free_order(), 3);
    assert_eq!(allocator.allocate_pages(8), Ok(8));
    assert_eq!(allocator.largest_free_order(), 0);
    assert_eq!(allocator.allocate_pages(1), Ok(7));
    assert_eq!(allocator.largest_free_order(), -1);
    assert_eq!(allocator.allocate_pages(1), Err(AllocError::NoFreeMemory));
}

#[test]
fn equal_requests_give_equal_answers() {
    let mut first = buddy_allocator::new(0, 4);
    let mut second = buddy_allocator::new(0, 4);
    for pages in [3usize, 1, 2, 1, 4, 1] {
        assert_eq!(first.allocate_pages(pages), second.allocate_pages(pages));
    }
}

#[test]
fn tree_after_three_pages_then_one_page() {
    let mut root = Area::new_root(0, 4);
    assert_eq!(root.find_and_allocate(order_for_pages(3)), Some(0));
    assert_eq!(leaves_of(&root), vec![(0, 2, true), (4, 2, false), (8, 3, false)]);
    assert_eq!(root.find_and_allocate(order_for_pages(1)), Some(4));
    assert_eq!(
        leaves_of(&root),
        vec![(0, 2, true), (4, 0, true), (5, 0, false), (6, 1, false), (8, 3, false)]
    );
}

#[test]
fn freed_buddies_coalesce() {
    let mut allocator = buddy_allocator::new(0, 1);
    assert_eq!(allocator.allocate_pages(1), Ok(0));
    assert_eq!(allocator.allocate_pages(1), Ok(1));
    assert_eq!(allocator.largest_free_order(), -1);
    assert_eq!(allocator.free_pages(0), Ok(()));
    assert_eq!(allocator.largest_free_order(), 0);
    assert_eq!(allocator.free_pages(1), Ok(()));
    assert_eq!(allocator.largest_free_order(), 1);
    assert_eq!(allocator.allocate_pages(2), Ok(0));
}

#[test]
fn freed_buddies_leave_one_free_leaf() {
    let mut root = Area::new_root(0, 1);
    assert_eq!(root.find_and_allocate(0), Some(0));
    assert_eq!(root.find_and_allocate(0), Some(1));
    assert_eq!(leaves_of(&root), vec![(0, 0, true), (1, 0, true)]);
    assert_eq!(root.free(0), FreeResult::Freed);
    assert_eq!(leaves_of(&root), vec![(0, 0, false), (1, 0, true)]);
    assert_eq!(root.free(1), FreeResult::Freed);
    assert_eq!(leaves_of(&root), vec![(0, 1, false)]);
    assert!(root.is_free());
}

#[test]
fn request_larger_than_the_region_is_out_of_range() {
    let mut allocator = buddy_allocator::new(0, 4);
    assert_eq!(allocator.allocate_pages(17), Err(AllocError::OutOfRange));
    assert_eq!(allocator.allocate_pages(usize::MAX), Err(AllocError::OutOfRange));
    assert_eq!(allocator.allocate_at(0, 32), Err(AllocError::OutOfRange));
    assert_eq!(allocator.largest_free_order(), 4);
    assert_eq!(allocator.allocate_pages(16), Ok(0));
}

#[test]
fn fragmentation_leaves_no_free_memory() {
    let mut allocator = buddy_allocator::new(0, 3);
    for page in 0..8 {
        assert_eq!(allocator.allocate_pages(1), Ok(page));
    }
    // Free four single pages, no two of them buddies.
    for page in [0usize, 2, 4, 6] {
        assert_eq!(allocator.free_pages(page), Ok(()));
    }
    assert_eq!(allocator.largest_free_order(), 0);
    assert_eq!(allocator.allocate_pages(4), Err(AllocError::NoFreeMemory));
    assert_eq!(allocator.allocate_pages(2), Err(AllocError::NoFreeMemory));
    assert_eq!(allocator.allocate_pages(1), Ok(0));
}

#[test]
fn address_inside_an_allocated_leaf_is_unavailable() {
    let mut allocator = buddy_allocator::new(0, 4);
    assert_eq!(allocator.allocate_pages(4), Ok(0));
    assert_eq!(allocator.allocate_at(2, 1), Err(AllocError::AddressUnavailable));
    assert_eq!(allocator.allocate_at(2, 2), Err(AllocError::AddressUnavailable));
    assert_eq!(allocator.allocate_at(0, 4), Err(AllocError::AddressUnavailable));
    assert_eq!(allocator.allocate_at(0, 8), Err(AllocError::AddressUnavailable));
    assert_eq!(allocator.allocate_at(4, 4), Ok(4));
}

#[test]
fn allocate_at_misaligned_or_outside() {
    let mut allocator = buddy_allocator::new(16, 4);
    assert_eq!(allocator.allocate_at(17, 2), Err(AllocError::AddressUnavailable));
    assert_eq!(allocator.allocate_at(18, 4), Err(AllocError::AddressUnavailable));
    assert_eq!(allocator.allocate_at(0, 1), Err(AllocError::AddressUnavailable));
    assert_eq!(allocator.allocate_at(32, 1), Err(AllocError::AddressUnavailable));
    assert_eq!(allocator.largest_free_order(), 4);
    assert_eq!(allocator.allocate_at(18, 2), Ok(18));
    assert_eq!(allocator.allocate_at(31, 1), Ok(31));
    assert_eq!(allocator.allocate_at(31, 0), Err(AllocError::AddressUnavailable));
}

#[test]
fn allocate_at_places_inside_a_larger_free_area() {
    let mut root = Area::new_root(0, 3);
    assert!(root.allocate_at(6, 1));
    assert_eq!(leaves_of(&root), vec![(0, 2, false), (4, 1, false), (6, 1, true)]);
    assert_eq!(root.free(6), FreeResult::Freed);
    assert_eq!(leaves_of(&root), vec![(0, 3, false)]);
}

#[test]
fn free_pages_that_were_never_allocated() {
    let mut allocator = buddy_allocator::new(0, 4);
    assert_eq!(allocator.free_pages(0), Err(AllocError::InvalidFree));
    assert_eq!(allocator.allocate_pages(4), Ok(0));
    assert_eq!(allocator.free_pages(1), Err(AllocError::InvalidFree));
    assert_eq!(allocator.free_pages(4), Err(AllocError::InvalidFree));
    assert_eq!(allocator.free_pages(16), Err(AllocError::InvalidFree));
    assert_eq!(allocator.free_pages(usize::MAX), Err(AllocError::InvalidFree));
    assert_eq!(allocator.largest_free_order(), 3);
    assert_eq!(allocator.free_pages(0), Ok(()));
    assert_eq!(allocator.largest_free_order(), 4);
}

#[test]
fn free_pages_twice_fails_the_second_time() {
    let mut allocator = buddy_allocator::new(0, 4);
    assert_eq!(allocator.allocate_pages(2), Ok(0));
    assert_eq!(allocator.allocate_pages(2), Ok(2));
    assert_eq!(allocator.free_pages(2), Ok(()));
    assert_eq!(allocator.free_pages(2), Err(AllocError::InvalidFree));
    assert_eq!(allocator.free_pages(0), Ok(()));
    assert_eq!(allocator.free_pages(0), Err(AllocError::InvalidFree));
    assert_eq!(allocator.largest_free_order(), 4);
}

#[test]
fn allocate_then_free_restores_the_tree() {
    let mut root = Area::new_root(0, 5);
    assert_eq!(root.find_and_allocate(2), Some(0));
    assert_eq!(root.find_and_allocate(0), Some(4));
    assert_eq!(root.find_and_allocate(3), Some(8));
    let before = leaves_of(&root);
    let shape = format!("{:?}", root);
    for order in 0..5 {
        let page = root.find_and_allocate(order).unwrap();
        assert_ne!(leaves_of(&root), before);
        assert_eq!(root.free(page), FreeResult::Freed);
        assert_eq!(leaves_of(&root), before);
        assert_eq!(format!("{:?}", root), shape);
    }
    assert_eq!(root.find_and_allocate(5), None);
    assert_eq!(format!("{:?}", root), shape);
}

#[test]
fn allocate_then_free_after_other_allocations_elsewhere() {
    let mut root = Area::new_root(0, 4);
    assert_eq!(root.find_and_allocate(1), Some(0));
    let mut other = Area::new_root(0, 4);
    assert_eq!(other.find_and_allocate(1), Some(0));
    // Take a block, allocate and free elsewhere, then give the block back.
    assert!(root.allocate_at(8, 2));
    assert_eq!(root.find_and_allocate(0), Some(2));
    assert_eq!(other.find_and_allocate(0), Some(2));
    assert_eq!(root.free(8), FreeResult::Freed);
    assert_eq!(leaves_of(&root), leaves_of(&other));
}

#[test]
fn pages_are_conserved() {
    let mut root = Area::new_root(64, 6);
    let total = |area: &Area| -> usize {
        leaves_of(area).iter().map(|l| 1usize << l.1).sum()
    };
    assert_eq!(total(&root), 64);
    let mut held = Vec::new();
    for order in [0, 3, 1, 0, 2, 4, 0, 1] {
        if let Some(page) = root.find_and_allocate(order) {
            held.push(page);
        }
        assert_eq!(total(&root), 64);
        check_shape(&root, true);
    }
    for page in held {
        assert_eq!(root.free(page), FreeResult::Freed);
        assert_eq!(total(&root), 64);
        check_shape(&root, true);
    }
    assert_eq!(leaves_of(&root), vec![(64, 6, false)]);
}

#[test]
fn allocated_leaves_do_not_overlap() {
    let mut root = Area::new_root(0, 6);
    for order in [2, 0, 0, 3, 1, 4, 0, 2, 1] {
        assert!(root.find_and_allocate(order).is_some());
    }
    assert!(root.allocate_at(60, 2));
    let allocated: Vec<(usize, i32, bool)> =
        leaves_of(&root).into_iter().filter(|l| l.2).collect();
    assert_eq!(allocated.len(), 10);
    for (i, a) in allocated.iter().enumerate() {
        for b in allocated.iter().skip(i + 1) {
            let a_end = a.0 + (1usize << a.1);
            let b_end = b.0 + (1usize << b.1);
            assert!(a_end <= b.0 || b_end <= a.0);
        }
    }
    // The leaves tile the root from end to end.
    let mut next = 0;
    for leaf in leaves_of(&root) {
        assert_eq!(leaf.0, next);
        next += 1usize << leaf.1;
    }
    assert_eq!(next, 64);
}

#[test]
fn allocator_at_the_top_of_the_address_space() {
    let base = usize::MAX - 15;
    let mut allocator = buddy_allocator::new(base, 4);
    assert_eq!(allocator.allocate_pages(1), Ok(base));
    assert_eq!(allocator.allocate_at(usize::MAX, 1), Ok(usize::MAX));
    assert_eq!(allocator.allocate_pages(8), Err(AllocError::NoFreeMemory));
    assert_eq!(allocator.allocate_pages(4), Ok(base + 4));
    assert_eq!(allocator.allocate_pages(4), Ok(base + 8));
    assert_eq!(allocator.free_pages(usize::MAX), Ok(()));
    assert_eq!(allocator.free_pages(base + 8), Ok(()));
    assert_eq!(allocator.largest_free_order(), 3);
    assert_eq!(allocator.free_pages(base + 4), Ok(()));
    assert_eq!(allocator.free_pages(base), Ok(()));
    assert_eq!(allocator.largest_free_order(), 4);
}

#[test]
fn single_page_allocator() {
    let mut allocator = buddy_allocator::new(5, 0);
    assert_eq!(allocator.allocate_pages(2), Err(AllocError::OutOfRange));
    assert_eq!(allocator.allocate_pages(0), Ok(5));
    assert_eq!(allocator.allocate_pages(1), Err(AllocError::NoFreeMemory));
    assert_eq!(allocator.free_pages(5), Ok(()));
    assert_eq!(allocator.allocate_at(5, 1), Ok(5));
}

#[test]
fn long_runs_of_requests_keep_the_tree_in_shape() {
    let mut root = Area::new_root(256, 8);
    let mut held: Vec<(usize, i32)> = Vec::new();
    let mut seed: u64 = 0x2545_f491_4f6c_dd1d;
    let mut next = move || {
        seed ^= seed << 13;
        seed ^= seed >> 7;
        seed ^= seed << 17;
        seed
    };
    for _ in 0..2000 {
        let choice = next() % 3;
        if choice == 0 && !held.is_empty() {
            let index = (next() as usize) % held.len();
            let (page, _) = held.swap_remove(index);
            assert_eq!(root.free(page), FreeResult::Freed);
            assert_eq!(root.free(page), FreeResult::NotAllocated);
        } else if choice == 1 {
            let order = (next() % 6) as i32;
            let before = leaves_of(&root);
            // The smallest free leaf that is large enough, lowest address first.
            let expected = before
                .iter()
                .filter(|l| !l.2 && l.1 >= order)
                .min_by_key(|l| (l.1, l.0))
                .map(|l| l.0);
            assert_eq!(root.best_fit_order(order).is_some(), expected.is_some());
            let page = root.find_and_allocate(order);
            assert_eq!(page, expected);
            match page {
                Some(page) => held.push((page, order)),
                None => assert_eq!(leaves_of(&root), before),
            }
        } else {
            let order = (next() % 4) as i32;
            let page = 256 + ((next() as usize) % 256);
            let before = leaves_of(&root);
            let fits = page % (1usize << order) == 0
                && before.iter().any(|l| {
                    !l.2 && l.0 <= page && page + (1usize << order) <= l.0 + (1usize << l.1)
                });
            assert_eq!(root.allocate_at(page, order), fits);
            if fits {
                held.push((page, order));
            } else {
                assert_eq!(leaves_of(&root), before);
            }
        }
        check_shape(&root, true);
        let now = leaves_of(&root);
        let mut at = 256;
        for leaf in &now {
            assert_eq!(leaf.0, at);
            at += 1usize << leaf.1;
        }
        assert_eq!(at, 512);
        let mut allocated: Vec<(usize, i32)> =
            now.iter().filter(|l| l.2).map(|l| (l.0, l.1)).collect();
        let mut expected = held.clone();
        allocated.sort();
        expected.sort();
        assert_eq!(allocated, expected);
        let largest = now.iter().filter(|l| !l.2).map(|l| l.1).max().unwrap_or(-1);
        assert_eq!(root.largest_free_order(), largest);
    }
    for (page, _) in held {
        assert_eq!(root.free(page), FreeResult::Freed);
    }
    assert_eq!(leaves_of(&root), vec![(256, 8, false)]);
}
