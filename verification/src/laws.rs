//! Laws of the shape of the buddy tree: what holds of every well-formed tree,
//! however it came about.

use vstd::prelude::*;
use vstd::arithmetic::power2::*;
use crate::area::{Area, AreaState};
use crate::order::pages_of;

verus! {

impl Area {
    /// Whether `sub` is this area or one of the areas below it.
    pub open spec fn has_subarea(self, sub: Area) -> bool
        decreases self,
    {
        self == sub || match self.state {
            AreaState::Split(b) => b.left.has_subarea(sub) || b.right.has_subarea(sub),
            _ => false,
        }
    }

    /// The number of pages in the leaves of the tree, taken together.
    pub open spec fn leaf_pages(self) -> nat
        decreases self,
    {
        match self.state {
            AreaState::Split(b) => b.left.leaf_pages() + b.right.leaf_pages(),
            _ => self.pages(),
        }
    }

    /// In a well-formed tree, every split area at any depth has two halves
    /// of equal order, one less than its own, and the upper half starts
    /// right where the lower half ends.
    pub proof fn lemma_split_halves(self, sub: Area)
        requires
            self.wf(),
            self.has_subarea(sub),
            sub.state is Split,
        ensures
            sub.left().order == sub.order - 1,
            sub.right().order == sub.order - 1,
            sub.left().base() == sub.base(),
            sub.right().base() == sub.left().end(),
            sub.right().end() == sub.end(),
            sub.left().base() < sub.right().base(),
        decreases self,
    {
        if self == sub {
            lemma_pow2_unfold(self.order as nat);
            lemma_pow2_pos((self.order - 1) as nat);
        } else {
            match self.state {
                AreaState::Split(b) => {
                    if b.left.has_subarea(sub) {
                        b.left.lemma_split_halves(sub);
                    } else {
                        b.right.lemma_split_halves(sub);
                    }
                },
                _ => {},
            }
        }
    }

    /// Everything below a well-formed area is well formed, lies inside it and
    /// is of no greater order; in particular the order of every leaf is
    /// between 0 and the order of the root.
    pub proof fn lemma_subarea_within(self, sub: Area)
        requires
            self.wf(),
            self.has_subarea(sub),
        ensures
            sub.wf(),
            0 <= sub.order <= self.order,
            self.base() <= sub.base(),
            sub.end() <= self.end(),
            self.coalesced() ==> sub.coalesced(),
        decreases self,
    {
        if self != sub {
            match self.state {
                AreaState::Split(b) => {
                    lemma_pow2_unfold(self.order as nat);
                    if b.left.has_subarea(sub) {
                        b.left.lemma_subarea_within(sub);
                    } else {
                        b.right.lemma_subarea_within(sub);
                    }
                },
                _ => {},
            }
        }
    }

    /// Splitting and merging neither create nor lose pages: the leaves of a
    /// well-formed tree hold exactly the pages of its root.
    pub proof fn lemma_pages_conserved(self)
        requires
            self.wf(),
        ensures
            self.leaf_pages() == self.pages(),
        decreases self,
    {
        match self.state {
            AreaState::Split(b) => {
                b.left.lemma_pages_conserved();
                b.right.lemma_pages_conserved();
                lemma_pow2_unfold(self.order as nat);
            },
            _ => {},
        }
    }

    /// Every allocated leaf lies inside the area that holds it.
    pub proof fn lemma_allocations_in_range(self, page: int)
        requires
            self.wf(),
            self.allocations().contains_key(page),
        ensures
            self.base() <= page,
            0 <= self.allocations()[page] <= self.order,
            page + pages_of(self.allocations()[page]) <= self.end(),
        decreases self,
    {
        match self.state {
            AreaState::Split(b) => {
                lemma_pow2_unfold(self.order as nat);
                lemma_pow2_pos((self.order - 1) as nat);
                if b.right.allocations().contains_key(page) {
                    b.right.lemma_allocations_in_range(page);
                } else {
                    b.left.lemma_allocations_in_range(page);
                }
            },
            _ => {},
        }
    }

    /// All allocated leaves start inside the area that holds them.
    pub proof fn lemma_keys_in_range(self)
        requires
            self.wf(),
        ensures
            forall|page: int| #[trigger]
                self.allocations().contains_key(page) ==> self.base() <= page < self.end(),
    {
        assert forall|page: int| #[trigger]
            self.allocations().contains_key(page) implies self.base() <= page < self.end() by {
            self.lemma_allocations_in_range(page);
            lemma_pow2_pos(self.allocations()[page] as nat);
        }
    }

    /// An allocated leaf below a split area belongs to the half that its
    /// first page lies in, and to that half only.
    pub proof fn lemma_key_in_one_half(self, page: int)
        requires
            self.wf(),
            self.state is Split,
        ensures
            self.left().allocations().contains_key(page) ==> page < self.right().base()
                && self.allocations().contains_key(page)
                && self.allocations()[page] == self.left().allocations()[page],
            self.right().allocations().contains_key(page) ==> page >= self.right().base()
                && self.allocations().contains_key(page)
                && self.allocations()[page] == self.right().allocations()[page],
            self.allocations().contains_key(page) ==> (self.left().allocations().contains_key(page)
                || self.right().allocations().contains_key(page)),
    {
        if self.left().allocations().contains_key(page) {
            self.left().lemma_allocations_in_range(page);
            lemma_pow2_pos(self.left().allocations()[page] as nat);
        }
        if self.right().allocations().contains_key(page) {
            self.right().lemma_allocations_in_range(page);
        }
    }

    /// No two allocated leaves overlap.
    pub proof fn lemma_allocations_disjoint(self, p: int, q: int)
        requires
            self.wf(),
            self.allocations().contains_key(p),
            self.allocations().contains_key(q),
            p != q,
        ensures
            p + pages_of(self.allocations()[p]) <= q || q + pages_of(self.allocations()[q]) <= p,
        decreases self,
    {
        match self.state {
            AreaState::Split(b) => {
                let in_left_p = b.left.allocations().contains_key(p);
                let in_right_p = b.right.allocations().contains_key(p);
                let in_left_q = b.left.allocations().contains_key(q);
                let in_right_q = b.right.allocations().contains_key(q);
                if in_left_p {
                    b.left.lemma_allocations_in_range(p);
                }
                if in_right_p {
                    b.right.lemma_allocations_in_range(p);
                }
                if in_left_q {
                    b.left.lemma_allocations_in_range(q);
                }
                if in_right_q {
                    b.right.lemma_allocations_in_range(q);
                }
                lemma_pow2_pos((self.order - 1) as nat);
                if in_right_p && in_right_q {
                    b.right.lemma_allocations_disjoint(p, q);
                } else if in_left_p && in_left_q {
                    b.left.lemma_allocations_disjoint(p, q);
                }
            },
            _ => {},
        }
    }

    /// The tree holds an allocated leaf at a page exactly when the page is a
    /// key of its allocations.
    pub proof fn lemma_holds_iff_allocated(self, page: int)
        requires
            self.wf(),
        ensures
            self.holds(page) == self.allocations().contains_key(page),
        decreases self,
    {
        match self.state {
            AreaState::Split(b) => {
                b.left.lemma_holds_iff_allocated(page);
                b.right.lemma_holds_iff_allocated(page);
                lemma_pow2_pos((self.order - 1) as nat);
                if b.left.allocations().contains_key(page) {
                    b.left.lemma_allocations_in_range(page);
                    lemma_pow2_pos(b.left.allocations()[page] as nat);
                }
                if b.right.allocations().contains_key(page) {
                    b.right.lemma_allocations_in_range(page);
                }
            },
            _ => {},
        }
    }

    /// An allocated leaf below a split area is of a smaller order than the
    /// area.
    pub proof fn lemma_allocation_below_split(self, page: int)
        requires
            self.wf(),
            self.state is Split,
            self.allocations().contains_key(page),
        ensures
            self.allocations()[page] < self.order,
    {
        if self.right().allocations().contains_key(page) {
            self.right().lemma_allocations_in_range(page);
        } else {
            self.left().lemma_allocations_in_range(page);
        }
    }

    /// A split area without unmerged free buddies holds an allocated leaf,
    /// which this lemma returns the first page of.
    pub proof fn lemma_split_holds_allocation(self) -> (page: int)
        requires
            self.coalesced(),
            self.state is Split,
        ensures
            self.allocations().contains_key(page),
        decreases self,
    {
        let left = self.left();
        let right = self.right();
        let page = if right.state is Allocated {
            right.base()
        } else if right.state is Split {
            right.lemma_split_holds_allocation()
        } else if left.state is Allocated {
            left.base()
        } else {
            left.lemma_split_holds_allocation()
        };
        assert(left.allocations().contains_key(page) || right.allocations().contains_key(page));
        page
    }

    /// The allocations decide the tree: two well-formed trees over the same
    /// pages, both without unmerged free buddies, that hold the same
    /// allocated leaves are the same tree. So whatever the order in which
    /// blocks were allocated and freed, the tree depends only on the blocks
    /// that are allocated now.
    pub proof fn lemma_allocations_decide_tree(self, other: Area)
        requires
            self.wf(),
            self.coalesced(),
            other.wf(),
            other.coalesced(),
            self.page_number == other.page_number,
            self.order == other.order,
            self.allocations() == other.allocations(),
        ensures
            self == other,
        decreases self,
    {
        if self.state is Split {
            let page = self.lemma_split_holds_allocation();
            self.lemma_allocation_below_split(page);
        }
        if other.state is Split {
            let page = other.lemma_split_holds_allocation();
            other.lemma_allocation_below_split(page);
        }
        if self.state is Allocated {
            assert(self.allocations().contains_key(self.base()));
        }
        if other.state is Allocated {
            assert(other.allocations().contains_key(other.base()));
        }
        if self.state is Split && other.state is Split {
            let (l, r) = (self.left().allocations(), self.right().allocations());
            let (ol, or) = (other.left().allocations(), other.right().allocations());
            assert forall|page: int| #[trigger] l.contains_key(page) implies ol.contains_key(page)
                && l[page] == ol[page] by {
                self.lemma_key_in_one_half(page);
                other.lemma_key_in_one_half(page);
            }
            assert forall|page: int| #[trigger] ol.contains_key(page) implies l.contains_key(page) by {
                self.lemma_key_in_one_half(page);
                other.lemma_key_in_one_half(page);
            }
            assert forall|page: int| #[trigger] r.contains_key(page) implies or.contains_key(page)
                && r[page] == or[page] by {
                self.lemma_key_in_one_half(page);
                other.lemma_key_in_one_half(page);
            }
            assert forall|page: int| #[trigger] or.contains_key(page) implies r.contains_key(page) by {
                self.lemma_key_in_one_half(page);
                other.lemma_key_in_one_half(page);
            }
            assert(self.left().allocations() =~= other.left().allocations());
            assert(self.right().allocations() =~= other.right().allocations());
            self.left().lemma_allocations_decide_tree(other.left());
            self.right().lemma_allocations_decide_tree(other.right());
        }
    }
}

} // verus!
