//! A slab: storage for values of one type, handed out by address and reused
//! once released.
//!
//! The storage is split into `NUM_PAGES` pages; page `p` holds
//! `PAGE_INITIAL_SIZE * 2^p` slots, so each page is twice the size of the one
//! before. Address `a` names slot `a - page_base(p)` of the page `p` whose range
//! holds `a`. Within a page, released slots are reused last released first;
//! when none is free, a new slot is taken at the end of the page.
use vstd::arithmetic::power2::{lemma2_to64, lemma_pow2_pos, lemma_pow2_strictly_increases, lemma_pow2_unfold, pow2};
use vstd::prelude::*;
use vstd::set_lib::{lemma_int_range, lemma_len_subset, set_int_range};

verus! {

/// The number of pages.
pub const NUM_PAGES: usize = 19;

/// The number of slots of the first page.
pub const PAGE_INITIAL_SIZE: usize = 32;

/// The first address of page `p`.
pub open spec fn page_base(p: nat) -> int {
    32 * (pow2(p) - 1)
}

/// The number of slots of page `p`.
pub open spec fn page_size(p: nat) -> int {
    32 * pow2(p) as int
}

/// Whether address `a` lies in page `p`.
pub open spec fn in_page(a: int, p: nat) -> bool {
    page_base(p) <= a < page_base(p) + page_size(p)
}

/// The values that a slab stores: they can be reset for reuse.
pub trait Entry: Default {
    /// Resets the value before its slot is handed out again.
    fn reset(&mut self);
}

/// The address of a slot.
#[derive(Debug, Copy, Clone, PartialEq, Eq, Structural)]
pub struct Address(usize);

impl View for Address {
    type V = usize;

    closed spec fn view(&self) -> usize {
        self.0
    }
}

/// The number of bits of a pointer.
pub fn pointer_width() -> (r: u32)
    ensures
        r == usize::BITS,
{
    usize::BITS
}

/// `usize::leading_zeros`: the number of zero bits above the highest set bit,
/// as std documents it: with `r` leading zeros, `x` is below `2^(BITS - r)`, and
/// at least `2^(BITS - r - 1)` when `r < BITS`.
#[verifier::external_body]
fn usize_leading_zeros(x: usize) -> (r: u32)
    ensures
        r <= usize::BITS,
        x < pow2((usize::BITS - r) as nat),
        r < usize::BITS ==> x >= pow2((usize::BITS - r - 1) as nat),
{
    x.leading_zeros()
}

impl Address {
    /// The page that holds this address.
    pub fn page(&self) -> (r: usize)
        requires
            self@ + PAGE_INITIAL_SIZE <= usize::MAX,
        ensures
            in_page(self@ as int, r as nat),
    {
        let sum = self.0 + PAGE_INITIAL_SIZE;
        let slot_shifted = sum >> 6u32;
        proof {
            assert(sum >> 6u32 == sum / 64) by (bit_vector);
        }
        let lz = usize_leading_zeros(slot_shifted);
        let n = pointer_width() - lz;
        proof {
            let nn = n as nat;
            let x = slot_shifted as int;
            assert(nn == (usize::BITS - lz) as nat);
            assert(x < pow2(nn));
            assert(sum < 64 * (x + 1));
            assert(sum < 64 * pow2(nn));
            if nn > 0 {
                lemma_pow2_unfold(nn);
                assert(x >= pow2((nn - 1) as nat));
                assert(sum >= 64 * x);
                assert(sum >= 32 * pow2(nn));
            } else {
                lemma2_to64();
            }
        }
        n as usize
    }

    /// The address as a number.
    pub fn as_usize(self) -> (r: usize)
        ensures
            r == self@,
    {
        self.0
    }

    /// The address with the given number.
    pub fn from_usize(src: usize) -> (a: Address)
        ensures
            a@ == src,
    {
        Address(src)
    }
}

/// The page whose range holds address `a`.
pub open spec fn page_of(a: int) -> nat {
    choose|p: nat| in_page(a, p)
}

/// Pages hold disjoint address ranges.
pub proof fn lemma_page_unique(a: int, p: nat, q: nat)
    requires
        in_page(a, p),
        in_page(a, q),
    ensures
        p == q,
{
    if p < q {
        lemma_pow2_strictly_increases(p + 1, q + 1);
        if p + 1 < q {
            lemma_pow2_strictly_increases(p + 1, q);
        }
        lemma_pow2_unfold(p + 1);
        lemma_pow2_unfold(q + 1);
    } else if q < p {
        lemma_pow2_strictly_increases(q + 1, p + 1);
        if q + 1 < p {
            lemma_pow2_strictly_increases(q + 1, p);
        }
        lemma_pow2_unfold(q + 1);
        lemma_pow2_unfold(p + 1);
    }
}

/// Every address in range lies in exactly the page that `page_of` names.
pub proof fn lemma_page_of(a: int, p: nat)
    requires
        in_page(a, p),
    ensures
        page_of(a) == p,
{
    lemma_page_unique(a, p, page_of(a));
}

/// A list of distinct slots below `n` that leaves out slot `idx` is shorter
/// than `n`.
proof fn lemma_free_short(f: Seq<usize>, n: int, idx: usize)
    requires
        f.no_duplicates(),
        forall|i: int| 0 <= i < f.len() ==> f[i] < n,
        idx < n,
        !f.contains(idx),
    ensures
        f.len() < n,
{
    let g = f.map_values(|x: usize| x as int);
    assert(g.no_duplicates()) by {
        assert forall|a: int, b: int| 0 <= a < g.len() && 0 <= b < g.len() && a != b implies g[a]
            != g[b] by {
            assert(f[a] != f[b]);
        }
    }
    g.unique_seq_to_set();
    let r = set_int_range(0, n).remove(idx as int);
    lemma_int_range(0, n);
    assert(g.to_set().subset_of(r)) by {
        assert forall|x: int| g.to_set().contains(x) implies r.contains(x) by {
            assert(g.contains(x));
            let k = g.index_of(x);
            assert(f[k] as int == x);
            if x == idx as int {
                assert(f[k] == idx);
                assert(f.contains(idx));
            }
        }
    }
    lemma_len_subset(g.to_set(), r);
}

/// A slot that holds a value, and links the page's free slots.
struct Slot<T> {
    value: T,
    next: u32,
}

/// One page of a slab.
struct Page<T> {
    used: usize,
    allocated: bool,
    len: usize,
    prev_len: usize,
    slots: Vec<Slot<T>>,
    head: usize,
}

impl<T> Page<T> {
    spec fn free_link(self, f: Seq<usize>, i: int) -> bool {
        &&& f[i] < self.slots.len()
        &&& self.slots@[f[i] as int].next as int == (if i + 1 < f.len() {
            f[i + 1] as int
        } else {
            self.slots.len() as int
        })
    }

    spec fn is_free(self, f: Seq<usize>) -> bool {
        &&& self.head as int == (if f.len() == 0 {
            self.slots.len() as int
        } else {
            f[0] as int
        })
        &&& f.no_duplicates()
        &&& self.used + f.len() == self.slots.len()
        &&& forall|i: int| 0 <= i < f.len() ==> #[trigger] self.free_link(f, i)
    }

    spec fn free(self) -> Seq<usize> {
        choose|f: Seq<usize>| self.is_free(f)
    }

    spec fn wf(self) -> bool {
        &&& self.is_free(self.free())
        &&& self.slots.len() <= self.len
        &&& self.allocated == (self.slots.len() > 0)
        &&& self.len < 0x1_0000_0000
    }

    spec fn in_use(self, i: int) -> bool {
        0 <= i < self.slots.len() && !self.free().contains(i as usize)
    }

    proof fn lemma_free_unique(self, a: Seq<usize>, b: Seq<usize>)
        requires
            self.is_free(a),
            self.is_free(b),
        ensures
            a == b,
    {
        assert forall|i: int| 0 <= i < a.len() implies a[i] == b[i] by {
            self.lemma_free_prefix(a, b, i);
        }
        assert(a =~= b);
    }

    proof fn lemma_free_prefix(self, a: Seq<usize>, b: Seq<usize>, i: int)
        requires
            self.is_free(a),
            self.is_free(b),
            0 <= i < a.len(),
        ensures
            a[i] == b[i],
        decreases i,
    {
        if i > 0 {
            self.lemma_free_prefix(a, b, i - 1);
            assert(self.free_link(a, i - 1));
            assert(self.free_link(b, i - 1));
        }
    }

    /// Puts `v` in slot `idx`, which keeps its place in the free chain, and
    /// gives back what was there.
    fn replace_value(&mut self, idx: usize, v: T) -> (prev: T)
        requires
            old(self).wf(),
            idx < old(self).slots.len(),
        ensures
            final(self).wf(),
            prev == old(self).slots@[idx as int].value,
            final(self).slots@ == old(self).slots@.update(
                idx as int,
                Slot { value: v, next: old(self).slots@[idx as int].next },
            ),
            final(self).free() == old(self).free(),
            final(self).used == old(self).used,
            final(self).allocated == old(self).allocated,
            final(self).len == old(self).len,
            final(self).prev_len == old(self).prev_len,
            final(self).head == old(self).head,
    {
        let ghost f = self.free();
        let mut prev = v;
        std::mem::swap(&mut self.slots[idx].value, &mut prev);
        proof {
            assert forall|i: int| 0 <= i < f.len() implies #[trigger] self.free_link(f, i) by {
                assert(old(self).free_link(f, i));
            }
            assert(self.is_free(f));
            self.lemma_free_unique(self.free(), f);
        }
        prev
    }

    fn new(len: usize, prev_len: usize) -> (pg: Page<T>)
        ensures
            pg.is_free(Seq::empty()),
            pg.free() == Seq::<usize>::empty(),
            pg.len == len,
            pg.prev_len == prev_len,
            pg.slots.len() == 0,
            !pg.allocated,
            pg.used == 0,
    {
        let pg = Page { used: 0, allocated: false, len, prev_len, slots: Vec::new(), head: 0 };
        proof {
            assert(pg.is_free(Seq::empty()));
            pg.lemma_free_unique(pg.free(), Seq::empty());
        }
        pg
    }

    /// Takes a slot: the last released one, or else a new one at the end, or
    /// none when the page is full.
    fn allocate(&mut self) -> (r: Option<usize>)
        where
            T: Entry,
        requires
            old(self).wf(),
        ensures
            final(self).wf(),
            final(self).len == old(self).len,
            final(self).prev_len == old(self).prev_len,
            r is None <==> old(self).used == old(self).len,
            r is None ==> *final(self) == *old(self),
            r matches Some(i) ==> {
                &&& i == old(self).head
                &&& i < old(self).len
                &&& !old(self).in_use(i as int)
                &&& final(self).used == old(self).used + 1
                &&& final(self).allocated
                &&& forall|j: int| #[trigger] final(self).in_use(j) <==> (old(self).in_use(j) || j == i)
                &&& forall|j: int| #[trigger] old(self).in_use(j) ==> final(self).slots@[j].value
                    == old(self).slots@[j].value
                &&& old(self).free().len() > 0 ==> final(self).free() == old(self).free().drop_first()
                    && final(self).slots.len() == old(self).slots.len()
                &&& old(self).free().len() == 0 ==> final(self).free() == old(self).free()
                    && final(self).slots.len() == old(self).slots.len() + 1
            },
    {
        let ghost f = self.free();
        let ghost old_self = *self;
        proof {
            if f.len() > 0 {
                assert(self.free_link(f, 0));
            }
        }
        if self.used == self.len {
            return None;
        }
        if self.head < self.slots.len() {
            proof {
                assert(self.free_link(f, 0));
                if f.len() > 1 {
                    assert(self.free_link(f, 1));
                }
            }
            let idx = self.head;
            self.head = self.slots[idx].next as usize;
            self.used = self.used + 1;
            self.slots[idx].value.reset();
            proof {
                let f2 = f.drop_first();
                assert forall|i: int| 0 <= i < f2.len() implies #[trigger] self.free_link(f2, i) by {
                    assert(old_self.free_link(f, i + 1));
                }
                assert(self.is_free(f2));
                self.lemma_free_unique(self.free(), f2);
                assert forall|j: int| #[trigger] self.in_use(j) <==> (old_self.in_use(j) || j == idx) by {
                    if j == idx {
                        assert(f2.contains(idx as usize) ==> f.no_duplicates() && f[0] == idx && false) by {
                            if f2.contains(idx as usize) {
                                let k = f2.index_of(idx as usize);
                                assert(f[k + 1] == idx);
                            }
                        }
                    } else if 0 <= j < self.slots.len() {
                        if f.contains(j as usize) {
                            let k = f.index_of(j as usize);
                            assert(k != 0);
                            assert(f2[k - 1] == j);
                        }
                        if f2.contains(j as usize) {
                            let k = f2.index_of(j as usize);
                            assert(f[k + 1] == j);
                        }
                    }
                }
            }
            Some(idx)
        } else if self.len == self.slots.len() {
            None
        } else {
            let idx = self.slots.len();
            self.slots.push(Slot { value: T::default(), next: 0 });
            self.head = self.head + 1;
            self.used = self.used + 1;
            self.allocated = true;
            proof {
                assert(f.len() == 0);
                assert(self.is_free(f));
                self.lemma_free_unique(self.free(), f);
            }
            Some(idx)
        }
    }

    /// Gives slot `idx` back: it becomes the first slot to be reused.
    fn release(&mut self, idx: usize)
        requires
            old(self).wf(),
            old(self).in_use(idx as int),
        ensures
            final(self).wf(),
            final(self).len == old(self).len,
            final(self).prev_len == old(self).prev_len,
            final(self).allocated == old(self).allocated,
            final(self).used == old(self).used - 1,
            final(self).slots.len() == old(self).slots.len(),
            final(self).free() == seq![idx] + old(self).free(),
            forall|j: int| #[trigger] final(self).in_use(j) <==> (old(self).in_use(j) && j != idx),
            forall|j: int| 0 <= j < old(self).slots.len() ==> final(self).slots@[j].value == old(self).slots@[j].value,
    {
        let ghost f = self.free();
        let ghost old_self = *self;
        proof {
            assert forall|i: int| 0 <= i < f.len() implies f[i] < self.slots.len() by {
                assert(self.free_link(f, i));
            }
            lemma_free_short(f, self.slots.len() as int, idx);
            if f.len() > 0 {
                assert(self.free_link(f, 0));
            }
        }
        self.slots[idx].next = self.head as u32;
        self.head = idx;
        self.used = self.used - 1;
        proof {
            let f2 = seq![idx] + f;
            assert forall|i: int| 0 <= i < f2.len() implies #[trigger] self.free_link(f2, i) by {
                if i > 0 {
                    assert(old_self.free_link(f, i - 1));
                    assert(f[i - 1] != idx);
                }
            }
            assert(f2.no_duplicates()) by {
                assert forall|a: int, b: int| 0 <= a < b < f2.len() implies f2[a] != f2[b] by {
                    if a == 0 {
                        assert(f2[b] == f[b - 1]);
                    }
                }
            }
            assert(self.is_free(f2));
            self.lemma_free_unique(self.free(), f2);
            assert forall|j: int| #[trigger] self.in_use(j) <==> (old_self.in_use(j) && j != idx) by {
                if 0 <= j < self.slots.len() {
                    let ju = j as usize;
                    if f2.contains(ju) && ju != idx {
                        let k = f2.index_of(ju);
                        assert(k != 0);
                        assert(f2[k] == f[k - 1]);
                        assert(f.contains(ju));
                    }
                    if f.contains(ju) {
                        let k = f.index_of(ju);
                        assert(f2[k + 1] == ju);
                        assert(f2.contains(ju));
                    }
                    if ju == idx {
                        assert(f2[0] == idx);
                    }
                }
            }
        }
    }
}

/// A handle to an allocated slot; handing it back to `Slab::release` frees the
/// slot.
pub struct Ref {
    addr: Address,
}

impl Ref {
    /// The address of the slot.
    pub closed spec fn spec_addr(self) -> Address {
        self.addr
    }

    /// The address of the slot.
    pub fn addr(&self) -> (r: Address)
        ensures
            r == self.spec_addr(),
    {
        self.addr
    }
}

/// Storage for values of one type, handed out by address.
pub struct Slab<T> {
    pages: Vec<Page<T>>,
}

impl<T> Slab<T> {
    /// The slab has its `NUM_PAGES` pages laid out one after the other, each
    /// twice the size of the one before, and each consistent.
    pub closed spec fn wf(self) -> bool {
        &&& self.pages.len() == NUM_PAGES
        &&& forall|p: int|
            0 <= p < NUM_PAGES ==> {
                &&& (#[trigger] self.pages@[p]).wf()
                &&& self.pages@[p].len == page_size(p as nat)
                &&& self.pages@[p].prev_len == page_base(p as nat)
            }
    }

    /// Whether slot `i` of page `p` is handed out.
    pub closed spec fn in_use(self, p: nat, i: int) -> bool {
        p < NUM_PAGES && self.pages@[p as int].in_use(i)
    }

    /// The value in slot `i` of page `p`.
    pub closed spec fn value(self, p: nat, i: int) -> T {
        self.pages@[p as int].slots@[i].value
    }

    /// The number of slots of page `p` that are handed out.
    pub closed spec fn used(self, p: nat) -> nat {
        self.pages@[p as int].used as nat
    }

    /// The number of slots that page `p` has ever taken.
    pub closed spec fn slot_count(self, p: nat) -> nat {
        self.pages@[p as int].slots@.len()
    }

    /// Whether page `p` holds memory for its slots.
    pub closed spec fn allocated(self, p: nat) -> bool {
        self.pages@[p as int].allocated
    }

    /// The slot of page `p` that the next allocation there takes.
    pub closed spec fn next_slot(self, p: nat) -> int {
        self.pages@[p as int].head as int
    }

    /// Whether every slot of page `p` is handed out.
    pub open spec fn full(self, p: nat) -> bool {
        self.used(p) == page_size(p)
    }

    /// Whether address `a` is handed out.
    pub open spec fn addr_in_use(self, a: int) -> bool {
        self.in_use(page_of(a), a - page_base(page_of(a)))
    }

    /// A slab with nothing handed out and no memory taken.
    pub fn new() -> (s: Slab<T>)
        ensures
            s.wf(),
            forall|p: nat, i: int| !#[trigger] s.in_use(p, i),
            forall|p: nat| p < NUM_PAGES ==> !#[trigger] s.allocated(p) && s.used(p) == 0,
    {
        let mut pages: Vec<Page<T>> = Vec::new();
        let mut len: usize = PAGE_INITIAL_SIZE;
        let mut prev_len: usize = 0;
        let mut i: usize = 0;
        proof {
            lemma2_to64();
        }
        while i < NUM_PAGES
            invariant
                i <= NUM_PAGES,
                pages@.len() == i,
                len == page_size(i as nat),
                prev_len == page_base(i as nat),
                pow2(19) == 524288,
                forall|p: int|
                    0 <= p < i ==> {
                        &&& (#[trigger] pages@[p]).wf()
                        &&& pages@[p].len == page_size(p as nat)
                        &&& pages@[p].prev_len == page_base(p as nat)
                        &&& pages@[p].used == 0
                        &&& pages@[p].free() == Seq::<usize>::empty()
                        &&& pages@[p].slots.len() == 0
                        &&& !pages@[p].allocated
                    },
            decreases NUM_PAGES - i,
        {
            proof {
                if i < 19 {
                    lemma_pow2_strictly_increases(i as nat, 19);
                }
                lemma_pow2_unfold(i as nat + 1);
            }
            let pg = Page::new(len, prev_len);
            pages.push(pg);
            prev_len = prev_len + len;
            len = len * 2;
            i = i + 1;
        }
        let s = Slab { pages };
        proof {
            assert forall|p: nat, j: int| !#[trigger] s.in_use(p, j) by {
                if p < NUM_PAGES {
                    assert(s.pages@[p as int].slots.len() == 0);
                }
            }
        }
        s
    }

    /// The number of pages.
    pub fn page_count(&self) -> (r: usize)
        requires
            self.wf(),
        ensures
            r == NUM_PAGES,
    {
        self.pages.len()
    }

    /// The number of slots of page `p`.
    pub fn page_len(&self, p: usize) -> (r: usize)
        requires
            self.wf(),
            p < NUM_PAGES,
        ensures
            r == page_size(p as nat),
    {
        self.pages[p].len
    }

    /// The number of slots of page `p` that are handed out.
    pub fn page_used(&self, p: usize) -> (r: usize)
        requires
            self.wf(),
            p < NUM_PAGES,
        ensures
            r == self.used(p as nat),
    {
        self.pages[p].used
    }

    /// Whether page `p` holds memory for its slots.
    pub fn page_allocated(&self, p: usize) -> (r: bool)
        requires
            self.wf(),
            p < NUM_PAGES,
        ensures
            r == self.allocated(p as nat),
    {
        self.pages[p].allocated
    }
}

/// `after` is `before` with the next slot of page `p` handed out at address
/// `a`, where `p` is the first page of `before` that is not full.
pub open spec fn allocated_in<T>(before: Slab<T>, after: Slab<T>, a: int, p: nat) -> bool {
    &&& p < NUM_PAGES
    &&& forall|q: nat| q < p ==> #[trigger] before.full(q)
    &&& !before.full(p)
    &&& a == page_base(p) + before.next_slot(p)
    &&& in_page(a, p)
    &&& !before.in_use(p, before.next_slot(p))
    &&& forall|q: nat, j: int| #[trigger] after.in_use(q, j) <==> (before.in_use(q, j) || (q == p && j
        == before.next_slot(p)))
    &&& forall|q: nat, j: int| #[trigger] before.in_use(q, j) ==> after.value(q, j) == before.value(q, j)
}

impl<T: Entry> Slab<T> {
    /// Hands out a slot of the first page that is not full: the page's last
    /// released slot, or else a new one at the end of it; none when every page
    /// is full.
    pub fn allocate(&mut self) -> (r: Option<(Address, Ref)>)
        requires
            old(self).wf(),
        ensures
            final(self).wf(),
            r is None <==> forall|p: nat| p < NUM_PAGES ==> #[trigger] old(self).full(p),
            r is None ==> forall|q: nat, j: int| #[trigger] final(self).in_use(q, j) == old(self).in_use(q, j)
                && final(self).value(q, j) == old(self).value(q, j),
            r is None ==> forall|q: nat| #[trigger] final(self).used(q) == old(self).used(q)
                && final(self).allocated(q) == old(self).allocated(q) && final(self).next_slot(q) == old(self).next_slot(q)
                && final(self).slot_count(q) == old(self).slot_count(q),
            r matches Some((a, rf)) ==> rf.spec_addr() == a,
            r matches Some((a, rf)) ==> allocated_in(
                *old(self),
                *final(self),
                a@ as int,
                page_of(a@ as int),
            ),
    {
        let ghost old_self = *self;
        let mut i: usize = 0;
        while i < self.pages.len() && self.pages[i].used == self.pages[i].len
            invariant
                self.wf(),
                i <= NUM_PAGES,
                forall|q: nat| q < i ==> #[trigger] self.full(q),
            decreases NUM_PAGES - i,
        {
            i = i + 1;
        }
        if i == self.pages.len() {
            return None;
        }
        proof {
            assert(self.pages@[i as int].wf());
        }
        let res = self.pages[i].allocate();
        match res {
            Some(idx) => {
                proof {
                    lemma2_to64();
                    lemma_pow2_strictly_increases(i as nat, 19);
                }
                let a = Address(self.pages[i].prev_len + idx);
                proof {
                    let p = i as nat;
                    assert(old_self.pages@[i as int].wf());
                    assert forall|q: int| 0 <= q < NUM_PAGES implies {
                        &&& (#[trigger] self.pages@[q]).wf()
                        &&& self.pages@[q].len == page_size(q as nat)
                        &&& self.pages@[q].prev_len == page_base(q as nat)
                    } by {
                        if q != i {
                            assert(self.pages@[q] == old_self.pages@[q]);
                        }
                    }
                    assert forall|q: nat, j: int| #[trigger] self.in_use(q, j) <==> (old_self.in_use(q, j)
                        || (q == p && j == old_self.next_slot(p))) by {
                        if q != p && q < NUM_PAGES {
                            assert(self.pages@[q as int] == old_self.pages@[q as int]);
                        }
                    }
                    assert forall|q: nat, j: int| #[trigger] old_self.in_use(q, j) implies self.value(q, j)
                        == old_self.value(q, j) by {
                        if q != p {
                            assert(self.pages@[q as int] == old_self.pages@[q as int]);
                        }
                    }
                    assert(allocated_in(old_self, *self, a@ as int, i as nat));
                    lemma_page_of(a@ as int, i as nat);
                }
                Some((a, Ref { addr: a }))
            },
            None => {
                proof {
                    assert(false);
                }
                None
            },
        }
    }
}

impl<T> Slab<T> {
    /// Frees the slot of `r`: it becomes the first slot of its page to be
    /// reused.
    pub fn release(&mut self, r: Ref)
        requires
            old(self).wf(),
            r.spec_addr()@ + PAGE_INITIAL_SIZE <= usize::MAX,
            old(self).addr_in_use(r.spec_addr()@ as int),
        ensures
            final(self).wf(),
            ({
                let a = r.spec_addr()@ as int;
                let p = page_of(a);
                let i = a - page_base(p);
                &&& forall|q: nat, j: int| #[trigger] final(self).in_use(q, j) <==> (old(self).in_use(
                    q,
                    j,
                ) && !(q == p && j == i))
                &&& forall|q: nat, j: int| #[trigger] old(self).in_use(q, j) ==> final(self).value(
                    q,
                    j,
                ) == old(self).value(q, j)
                &&& final(self).next_slot(p) == i
            }),
    {
        let ghost old_self = *self;
        let p = r.addr.page();
        proof {
            lemma_page_of(r.addr@ as int, p as nat);
        }
        let idx = r.addr.0 - self.pages[p].prev_len;
        self.pages[p].release(idx);
        proof {
            assert forall|q: int| 0 <= q < NUM_PAGES implies {
                &&& (#[trigger] self.pages@[q]).wf()
                &&& self.pages@[q].len == page_size(q as nat)
                &&& self.pages@[q].prev_len == page_base(q as nat)
            } by {
                if q != p {
                    assert(self.pages@[q] == old_self.pages@[q]);
                }
            }
            assert forall|q: nat, j: int| #[trigger] self.in_use(q, j) <==> (old_self.in_use(q, j) && !(q
                == p && j == idx)) by {
                if q != p && q < NUM_PAGES {
                    assert(self.pages@[q as int] == old_self.pages@[q as int]);
                }
            }
            assert forall|q: nat, j: int| #[trigger] old_self.in_use(q, j) implies self.value(q, j)
                == old_self.value(q, j) by {
                if q != p {
                    assert(self.pages@[q as int] == old_self.pages@[q as int]);
                }
            }
            assert(self.pages@[p as int].free()[0] == idx);
            assert(self.pages@[p as int].wf());
        }
    }

    /// The value stored at `addr`, if its page holds memory and the slot was
    /// ever taken.
    pub fn get(&self, addr: Address) -> (r: Option<&T>)
        requires
            self.wf(),
            addr@ + PAGE_INITIAL_SIZE <= usize::MAX,
            page_of(addr@ as int) < NUM_PAGES,
        ensures
            ({
                let p = page_of(addr@ as int);
                let i = addr@ - page_base(p);
                &&& r is Some <==> self.allocated(p) && i < self.slot_count(p)
                &&& r matches Some(v) ==> *v == self.value(p, i)
            }),
    {
        let page_idx = addr.page();
        proof {
            lemma_page_of(addr@ as int, page_idx as nat);
        }
        let slot_idx = addr.0 - self.pages[page_idx].prev_len;
        if !self.pages[page_idx].allocated {
            return None;
        }
        if slot_idx < self.pages[page_idx].slots.len() {
            Some(&self.pages[page_idx].slots[slot_idx].value)
        } else {
            None
        }
    }

    /// The value in the slot of `r`.
    pub fn deref(&self, r: &Ref) -> (v: &T)
        requires
            self.wf(),
            r.spec_addr()@ + PAGE_INITIAL_SIZE <= usize::MAX,
            self.addr_in_use(r.spec_addr()@ as int),
        ensures
            *v == self.value(page_of(r.spec_addr()@ as int), r.spec_addr()@ - page_base(
                page_of(r.spec_addr()@ as int),
            )),
    {
        let p = r.addr.page();
        proof {
            lemma_page_of(r.addr@ as int, p as nat);
        }
        let idx = r.addr.0 - self.pages[p].prev_len;
        &self.pages[p].slots[idx].value
    }

    /// Puts `v` in the slot of `r` and gives back the value that was there.
    pub fn replace(&mut self, r: &Ref, v: T) -> (prev: T)
        requires
            old(self).wf(),
            r.spec_addr()@ + PAGE_INITIAL_SIZE <= usize::MAX,
            old(self).addr_in_use(r.spec_addr()@ as int),
        ensures
            final(self).wf(),
            ({
                let a = r.spec_addr()@ as int;
                let p = page_of(a);
                let i = a - page_base(p);
                &&& prev == old(self).value(p, i)
                &&& final(self).value(p, i) == v
                &&& forall|q: nat, j: int| #[trigger] final(self).in_use(q, j) <==> old(self).in_use(q, j)
                &&& forall|q: nat, j: int|
                    #[trigger] old(self).in_use(q, j) && !(q == p && j == i) ==> final(self).value(q, j)
                        == old(self).value(q, j)
                &&& forall|q: nat| q < NUM_PAGES ==> #[trigger] final(self).used(q) == old(self).used(q)
                    && final(self).allocated(q) == old(self).allocated(q) && final(self).next_slot(q)
                    == old(self).next_slot(q) && final(self).slot_count(q) == old(self).slot_count(q)
            }),
    {
        let ghost old_self = *self;
        let p = r.addr.page();
        proof {
            lemma_page_of(r.addr@ as int, p as nat);
        }
        let idx = r.addr.0 - self.pages[p].prev_len;
        let prev = self.pages[p].replace_value(idx, v);
        proof {
            assert forall|q: int| 0 <= q < NUM_PAGES implies {
                &&& (#[trigger] self.pages@[q]).wf()
                &&& self.pages@[q].len == page_size(q as nat)
                &&& self.pages@[q].prev_len == page_base(q as nat)
            } by {
                if q != p {
                    assert(self.pages@[q] == old_self.pages@[q]);
                }
            }
            assert forall|q: nat, j: int| #[trigger] self.in_use(q, j) <==> old_self.in_use(q, j) by {
                if q != p && q < NUM_PAGES {
                    assert(self.pages@[q as int] == old_self.pages@[q as int]);
                }
            }
            assert forall|q: nat, j: int| #[trigger] old_self.in_use(q, j) && !(q == p && j == idx) implies self.value(q, j)
                == old_self.value(q, j) by {
                if q != p {
                    assert(self.pages@[q as int] == old_self.pages@[q as int]);
                }
            }
            assert forall|q: nat| q < NUM_PAGES implies #[trigger] self.used(q) == old_self.used(q)
                    && self.allocated(q) == old_self.allocated(q) && self.next_slot(q)
                    == old_self.next_slot(q) && self.slot_count(q) == old_self.slot_count(q) by {
                if q != p {
                    assert(self.pages@[q as int] == old_self.pages@[q as int]);
                }
            }
        }
        prev
    }

    /// Gives back the memory of every page but the first that has no slot
    /// handed out.
    pub fn compact(&mut self)
        requires
            old(self).wf(),
        ensures
            final(self).wf(),
            forall|q: nat, j: int| #[trigger] final(self).in_use(q, j) <==> old(self).in_use(q, j),
            forall|q: nat, j: int| #[trigger] old(self).in_use(q, j) ==> final(self).value(q, j)
                == old(self).value(q, j),
            final(self).allocated(0) == old(self).allocated(0),
            forall|q: nat|
                1 <= q < NUM_PAGES ==> #[trigger] final(self).allocated(q) == (old(self).allocated(q)
                    && old(self).used(q) > 0),
            forall|q: nat| q < NUM_PAGES ==> #[trigger] final(self).used(q) == old(self).used(q),
    {
        let ghost old_self = *self;
        let mut i: usize = 1;
        while i < self.pages.len()
            invariant
                self.wf(),
                1 <= i <= NUM_PAGES,
                forall|q: nat, j: int| #[trigger] self.in_use(q, j) <==> old_self.in_use(q, j),
                forall|q: nat, j: int| #[trigger] old_self.in_use(q, j) ==> self.value(q, j)
                    == old_self.value(q, j),
                self.pages@[0] == old_self.pages@[0],
                forall|q: nat|
                    1 <= q < i ==> #[trigger] self.allocated(q) == (old_self.allocated(q)
                        && old_self.used(q) > 0),
                forall|q: nat| i <= q < NUM_PAGES ==> #[trigger] self.pages@[q as int] == old_self.pages@[q as int],
                forall|q: nat| q < NUM_PAGES ==> #[trigger] self.used(q) == old_self.used(q),
            decreases NUM_PAGES - i,
        {
            let ghost before = *self;
            proof {
                assert(before.pages@[i as int] == old_self.pages@[i as int]);
                assert(before.allocated(i as nat) == old_self.allocated(i as nat));
                assert(before.used(i as nat) == old_self.used(i as nat));
            }
            if self.pages[i].used == 0 && self.pages[i].allocated {
                proof {
                    let pg = self.pages@[i as int];
                    assert(pg.wf());
                    assert forall|k: int| 0 <= k < pg.free().len() implies pg.free()[k] < pg.slots.len() by {
                        assert(pg.free_link(pg.free(), k));
                    }
                    assert forall|j: int| !#[trigger] pg.in_use(j) by {
                        if 0 <= j < pg.slots.len() && !pg.free().contains(j as usize) {
                            lemma_free_short(pg.free(), pg.slots.len() as int, j as usize);
                        }
                    }
                }
                self.pages[i].allocated = false;
                self.pages[i].slots = Vec::new();
                self.pages[i].head = 0;
                proof {
                    assert forall|q: int| 0 <= q < NUM_PAGES && q != i implies self.pages@[q] == before.pages@[q] by {}
                    assert(self.pages@[i as int].used == before.pages@[i as int].used);
                    let pg = self.pages@[i as int];
                    assert(pg.is_free(Seq::empty()));
                    pg.lemma_free_unique(pg.free(), Seq::empty());
                    assert forall|q: int| 0 <= q < NUM_PAGES implies {
                        &&& (#[trigger] self.pages@[q]).wf()
                        &&& self.pages@[q].len == page_size(q as nat)
                        &&& self.pages@[q].prev_len == page_base(q as nat)
                    } by {
                        if q != i {
                            assert(self.pages@[q] == before.pages@[q]);
                        }
                    }
                    assert forall|q: nat, j: int| #[trigger] self.in_use(q, j) <==> old_self.in_use(q, j) by {
                        assert(before.in_use(q, j) == old_self.in_use(q, j));
                        if q != i && q < NUM_PAGES {
                            assert(self.pages@[q as int] == before.pages@[q as int]);
                        }
                        if q == i {
                            assert(!before.pages@[i as int].in_use(j));
                            assert(!self.pages@[i as int].in_use(j));
                        }
                    }
                    assert forall|q: nat, j: int| #[trigger] old_self.in_use(q, j) implies self.value(q, j)
                        == old_self.value(q, j) by {
                        if q != i {
                            assert(self.pages@[q as int] == before.pages@[q as int]);
                        }
                    }
                }
            }
            proof {
                assert forall|q: int| 0 <= q < NUM_PAGES && q != i implies self.pages@[q] == before.pages@[q] by {}
                assert(self.allocated(i as nat) == (old_self.allocated(i as nat) && old_self.used(i as nat) > 0));
                assert forall|q: nat| 1 <= q < i + 1 implies #[trigger] self.allocated(q) == (old_self.allocated(q)
                    && old_self.used(q) > 0) by {
                    if q < i {
                        assert(before.allocated(q) == (old_self.allocated(q) && old_self.used(q) > 0));
                        assert(self.pages@[q as int] == before.pages@[q as int]);
                    }
                }
                assert forall|q: nat| q < NUM_PAGES implies #[trigger] self.used(q) == old_self.used(q) by {
                    assert(before.used(q) == old_self.used(q));
                }
            }
            i = i + 1;
        }
    }
}

} // verus!