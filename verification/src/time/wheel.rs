//! A hierarchical timing wheel.
//!
//! The wheel has `LEVELS_NUM` levels of `SLOTS_NUM` slots each. A slot of
//! level `l` spans `64^l` milliseconds, so level `l` as a whole spans
//! `64^(l+1)`. A clock that expires `d` milliseconds ahead of the wheel goes to
//! the level whose span holds `d`, in the slot that bits `6l..6l+6` of `d`
//! select. Each level keeps a bit set for every slot that may hold clocks.
use crate::time::{Clock, TimerHandle};
use std::collections::VecDeque;
use vstd::arithmetic::power2::{lemma2_to64, lemma_pow2_strictly_increases, pow2};
use vstd::bits::{
    lemma_u64_low_bits_mask_is_mod, lemma_u64_shl_is_mul, lemma_u64_shr_is_div, low_bits_mask,
};
use vstd::prelude::*;
use vstd::std_specs::bits::{axiom_u64_leading_zeros, axiom_u64_trailing_zeros, u64_leading_zeros};

verus! {

/// The number of slots of a level.
pub const SLOTS_NUM: usize = 64;

/// The number of levels of a wheel.
pub const LEVELS_NUM: usize = 6;

/// The longest wait, in milliseconds, that the wheel tells apart: `2^36 - 1`.
pub const MAX_DURATION: u64 = 0xf_ffff_ffff;

/// Whether bit `i` of `x` is set.
pub open spec fn bit_set(x: u64, i: u64) -> bool {
    (x >> i) & 1u64 == 1u64
}

/// The span of one slot of level `level`: `64^level` milliseconds.
pub open spec fn spec_slot_range(level: nat) -> nat {
    pow2(6 * level)
}

/// The span of level `level`: `64^(level+1)` milliseconds.
pub open spec fn spec_level_range(level: nat) -> nat {
    pow2(6 * level + 6)
}

/// The slot of level `level` that a clock `duration` milliseconds ahead goes to.
pub open spec fn slot_for(duration: u64, level: nat) -> int {
    (duration as nat / spec_slot_range(level)) as int % 64
}

/// The distance that decides the level of a clock `d` milliseconds ahead:
/// `d` with its lowest six bits set, kept below `MAX_DURATION`.
pub open spec fn level_key(d: u64) -> u64 {
    if (d | 63u64) >= MAX_DURATION {
        (MAX_DURATION - 1) as u64
    } else {
        d | 63u64
    }
}

/// The span of one slot of level `level`.
fn slot_range(level: usize) -> (r: u64)
    requires
        level < LEVELS_NUM,
    ensures
        r == spec_slot_range(level as nat),
        r > 0,
{
    proof {
        vstd::arithmetic::power2::lemma_pow2_pos((6 * level) as nat);
        lemma2_to64();
        lemma_pow2_strictly_increases((6 * level) as nat, 31);
        lemma_u64_shl_is_mul(1u64, (6 * level) as u64);
    }
    1u64 << ((6 * level) as u64)
}

/// The span of level `level`.
fn level_range(level: usize) -> (r: u64)
    requires
        level < LEVELS_NUM,
    ensures
        r == spec_level_range(level as nat),
{
    proof {
        lemma2_to64();
        lemma_pow2_strictly_increases((6 * level + 6) as nat, 37);
        assert(pow2(37) == 0x20_0000_0000) by {
            vstd::arithmetic::power2::lemma2_to64_rest();
        }
        lemma_u64_shl_is_mul(1u64, (6 * level + 6) as u64);
    }
    1u64 << ((6 * level + 6) as u64)
}

/// A shift right by `s` divides by `2^s`; one that leaves nothing bounds `x`.
proof fn lemma_shift_bounds(x: u64, s: u64)
    requires
        s < 64,
    ensures
        (x >> s) & 1u64 == 1u64 ==> x >= pow2(s as nat),
        x >> s == 0 ==> x < pow2(s as nat),
{
    lemma_u64_shr_is_div(x, s);
    vstd::arithmetic::power2::lemma_pow2_pos(s as nat);
    assert((x >> s) & 1u64 == 1u64 ==> (x >> s) >= 1) by (bit_vector);
    if x >= pow2(s as nat) {
        vstd::arithmetic::div_mod::lemma_div_is_ordered(pow2(s as nat) as int, x as int, pow2(s as nat) as int);
        vstd::arithmetic::div_mod::lemma_div_by_self(pow2(s as nat) as int);
    }
    if x < pow2(s as nat) {
        vstd::arithmetic::div_mod::lemma_basic_div(x as int, pow2(s as nat) as int);
    }
}

/// `u64::rotate_right`: as std documents it, the bits of `x` shifted right by
/// `n` modulo 64, with the bits shifted out coming back in at the top.
#[verifier::external_body]
fn u64_rotate_right(x: u64, n: u32) -> (r: u64)
    ensures
        r == (x >> ((n % 64) as u64)) | (x << (((64 - n % 64) % 64) as u64)),
{
    x.rotate_right(n)
}

/// Slot `s` is the first slot at or after `start`, going round, whose bit is
/// set in `occ`.
pub open spec fn next_occupied(occ: u64, start: int, s: int) -> bool {
    exists|k: int| #[trigger] first_set_at(occ, start, k) && s == (start + k) % 64
}

/// Going round from slot `start`, the first set bit of `occ` is `k` slots on.
pub open spec fn first_set_at(occ: u64, start: int, k: int) -> bool {
    &&& 0 <= k < 64
    &&& bit_set(occ, ((start + k) % 64) as u64)
    &&& forall|j: int| 0 <= j < k ==> !#[trigger] bit_set(occ, ((start + j) % 64) as u64)
}

/// Cancelling a clock right after it was inserted leaves its slot as it was:
/// insertion puts the handle at the front of the slot, and cancellation takes
/// out the first copy of it.
pub proof fn lemma_cancel_undoes_insert(q: Seq<TimerHandle>, h: TimerHandle)
    ensures
        remove_first(seq![h] + q, h) == q,
{
    let s = seq![h] + q;
    assert(s[0] == h);
    assert(s.contains(h));
    assert(0 <= 0 < s.len() && s[0] == h && forall|j: int| 0 <= j < 0 ==> s[j] != h);
    let i = first_index(s, h);
    if i > 0 {
        assert(s[0] != h);
    }
    assert(s.remove(0) =~= q);
}

/// Setting, clearing or flipping bit `s` leaves every other bit as it was;
/// setting it sets it.
proof fn lemma_bit_ops(x: u64, s: u64, t: u64)
    by (bit_vector)
    requires
        s < 64,
        t < 64,
    ensures
        bit_set(x | (1u64 << s), s),
        bit_set(x, t) ==> bit_set(x | (1u64 << s), t),
        bit_set(x, t) && t != s ==> bit_set(x & !(1u64 << s), t),
        bit_set(x, t) && t != s ==> bit_set(x ^ (1u64 << s), t),
{
}

/// One level of a wheel.
pub struct Level {
    level: usize,
    occupied: u64,
    slots: Vec<VecDeque<TimerHandle>>,
}

/// The position of the first `h` in `q`.
pub open spec fn first_index(q: Seq<TimerHandle>, h: TimerHandle) -> int {
    choose|i: int| 0 <= i < q.len() && q[i] == h && forall|j: int| 0 <= j < i ==> q[j] != h
}

/// `q` without its first `h`, or `q` itself when it holds no `h`.
pub open spec fn remove_first(q: Seq<TimerHandle>, h: TimerHandle) -> Seq<TimerHandle> {
    if q.contains(h) {
        q.remove(first_index(q, h))
    } else {
        q
    }
}

/// Finds the first `h` in `q`.
fn find_first(q: &VecDeque<TimerHandle>, h: TimerHandle) -> (r: Option<usize>)
    ensures
        r is None <==> !q@.contains(h),
        r matches Some(i) ==> i == first_index(q@, h) && i < q@.len() && q@[i as int] == h,
{
    let mut i: usize = 0;
    while i < q.len()
        invariant
            i <= q@.len(),
            forall|j: int| 0 <= j < i ==> q@[j] != h,
        decreases q@.len() - i,
    {
        if q[i] == h {
            proof {
                assert(0 <= i < q@.len() && q@[i as int] == h && forall|j: int|
                    0 <= j < i ==> q@[j] != h);
                let k = first_index(q@, h);
                if k < i {
                    assert(q@[k] != h);
                }
                if k > i {
                    assert(q@[i as int] != h);
                }
            }
            return Some(i);
        }
        i = i + 1;
    }
    proof {
        if q@.contains(h) {
            let k = choose|k: int| 0 <= k < q@.len() && q@[k] == h;
            assert(q@[k] != h);
        }
    }
    None
}

impl Level {
    /// The index of this level in its wheel.
    pub closed spec fn index(self) -> usize {
        self.level
    }

    /// The bits of the slots that may hold clocks.
    pub closed spec fn occupied(self) -> u64 {
        self.occupied
    }

    /// The handles in slot `s`, newest first.
    pub closed spec fn slot(self, s: int) -> Seq<TimerHandle> {
        self.slots@[s]@
    }

    /// The level has its slots, and the bit of every slot that holds a clock
    /// is set.
    pub closed spec fn wf(self) -> bool {
        &&& self.level < LEVELS_NUM
        &&& self.slots@.len() == SLOTS_NUM
        &&& forall|s: int| 0 <= s < 64 && #[trigger] self.slots@[s]@.len() > 0 ==> bit_set(self.occupied, s as u64)
    }

    /// An empty level with index `level`.
    pub fn new(level: usize) -> (lv: Level)
        requires
            level < LEVELS_NUM,
        ensures
            lv.wf(),
            lv.index() == level,
            lv.occupied() == 0,
            forall|s: int| 0 <= s < 64 ==> #[trigger] lv.slot(s).len() == 0,
    {
        let mut slots: Vec<VecDeque<TimerHandle>> = Vec::new();
        let mut i: usize = 0;
        while i < SLOTS_NUM
            invariant
                i <= SLOTS_NUM,
                slots@.len() == i,
                forall|s: int| 0 <= s < i ==> #[trigger] slots@[s]@.len() == 0,
            decreases SLOTS_NUM - i,
        {
            slots.push(VecDeque::new());
            i = i + 1;
        }
        Level { level, occupied: 0, slots }
    }

    /// Puts the clock in the slot of this level that its distance from
    /// `elapsed` selects, newest first, and records that distance in it.
    pub fn insert(&mut self, clock: &mut Clock, elapsed: u64)
        requires
            old(self).wf(),
            elapsed <= old(clock).expiration,
        ensures
            final(self).wf(),
            *final(clock) == (Clock { duration: (old(clock).expiration - elapsed) as u64, ..*old(clock) }),
            final(self).index() == old(self).index(),
            ({
                let s = slot_for(final(clock).duration, old(self).index() as nat);
                &&& 0 <= s < 64
                &&& final(self).slot(s) == seq![TimerHandle { inner: old(clock).id }] + old(self).slot(s)
                &&& forall|t: int| 0 <= t < 64 && t != s ==> #[trigger] final(self).slot(t) == old(self).slot(t)
                &&& final(self).occupied() == old(self).occupied() | (1u64 << (s as u64))
            }),
    {
        let duration = clock.expiration() - elapsed;
        clock.set_duration(duration);
        let shift = (self.level * 6) as u64;
        proof {
            lemma_u64_shr_is_div(duration, shift);
            assert(6 * self.level == self.level * 6);
        }
        let slot = ((duration >> shift) % (SLOTS_NUM as u64)) as usize;
        let ghost old_self = *self;
        self.slots[slot].push_front(clock.handle());
        let old_occ = self.occupied;
        self.occupied = self.occupied | (1u64 << (slot as u64));
        proof {
            let occ = self.occupied;
            let sl = slot as u64;
            lemma_bit_ops(old_occ, sl, 0);
            assert forall|t: int| 0 <= t < 64 && #[trigger] self.slots@[t]@.len() > 0 implies bit_set(self.occupied, t as u64) by {
                if t != slot {
                    assert(self.slots@[t] == old_self.slots@[t]);
                    let tt = t as u64;
                    lemma_bit_ops(old_occ, sl, tt);
                }
            }
            assert forall|t: int| 0 <= t < 64 && t != slot implies #[trigger] self.slot(t) == old_self.slot(t) by {
                assert(self.slots@[t] == old_self.slots@[t]);
            }
        }
    }

    /// Takes every handle out of slot `slot` and clears its bit.
    pub fn take_slot(&mut self, slot: usize) -> (r: VecDeque<TimerHandle>)
        requires
            old(self).wf(),
            slot < SLOTS_NUM,
        ensures
            final(self).wf(),
            final(self).index() == old(self).index(),
            r@ == old(self).slot(slot as int),
            final(self).slot(slot as int).len() == 0,
            forall|t: int| 0 <= t < 64 && t != slot ==> #[trigger] final(self).slot(t) == old(self).slot(t),
            final(self).occupied() == old(self).occupied() & !(1u64 << (slot as u64)),
    {
        let ghost old_self = *self;
        let old_occ = self.occupied;
        self.occupied = self.occupied & !(1u64 << (slot as u64));
        let mut taken: VecDeque<TimerHandle> = VecDeque::new();
        std::mem::swap(&mut self.slots[slot], &mut taken);
        proof {
            let occ = self.occupied;
            let sl = slot as u64;
            assert forall|t: int| 0 <= t < 64 && #[trigger] self.slots@[t]@.len() > 0 implies bit_set(self.occupied, t as u64) by {
                assert(t != slot);
                assert(self.slots@[t] == old_self.slots@[t]);
                let tt = t as u64;
                lemma_bit_ops(old_occ, sl, tt);
            }
            assert forall|t: int| 0 <= t < 64 && t != slot implies #[trigger] self.slot(t) == old_self.slot(t) by {
                assert(self.slots@[t] == old_self.slots@[t]);
            }
        }
        taken
    }

    /// Takes the first `clock`'s handle out of the slot that its recorded
    /// distance selects, and flips that slot's bit when the slot is left empty.
    pub fn cancel(&mut self, clock: &Clock)
        requires
            old(self).wf(),
        ensures
            final(self).wf(),
            final(self).index() == old(self).index(),
            ({
                let s = slot_for(clock.duration, old(self).index() as nat);
                &&& 0 <= s < 64
                &&& final(self).slot(s) == remove_first(old(self).slot(s), TimerHandle { inner: clock.id })
                &&& forall|t: int| 0 <= t < 64 && t != s ==> #[trigger] final(self).slot(t) == old(self).slot(t)
                &&& final(self).occupied() == if final(self).slot(s).len() == 0 {
                    old(self).occupied() ^ (1u64 << (s as u64))
                } else {
                    old(self).occupied()
                }
            }),
    {
        let ghost old_self = *self;
        let duration = clock.duration();
        let shift = (self.level * 6) as u64;
        proof {
            lemma_u64_shr_is_div(duration, shift);
            assert(6 * self.level == self.level * 6);
        }
        let slot = ((duration >> shift) % (SLOTS_NUM as u64)) as usize;
        let h = clock.handle();
        match find_first(&self.slots[slot], h) {
            Some(index) => {
                let _ = self.slots[slot].remove(index);
            },
            None => {},
        }
        let old_occ = self.occupied;
        if self.slots[slot].len() == 0 {
            self.occupied = self.occupied ^ (1u64 << (slot as u64));
        }
        proof {
            let occ = self.occupied;
            let sl = slot as u64;
            assert(self.slots@[slot as int]@ == remove_first(old_self.slots@[slot as int]@, h));
            assert forall|t: int| 0 <= t < 64 && #[trigger] self.slots@[t]@.len() > 0 implies bit_set(self.occupied, t as u64) by {
                let tt = t as u64;
                if t != slot {
                    assert(self.slots@[t] == old_self.slots@[t]);
                    lemma_bit_ops(old_occ, sl, tt);
                } else {
                    assert(old_self.slots@[t]@.len() > 0);
                }
            }
            assert forall|t: int| 0 <= t < 64 && t != slot implies #[trigger] self.slot(t) == old_self.slot(t) by {
                assert(self.slots@[t] == old_self.slots@[t]);
            }
        }
    }

    /// The first slot at or after the one that `now` falls in, going round,
    /// whose bit is set; none when no bit is set.
    pub fn next_occupied_slot(&self, now: u64) -> (r: Option<usize>)
        requires
            self.wf(),
            now as nat / spec_slot_range(self.index() as nat) + 63 <= u64::MAX,
        ensures
            r is None <==> self.occupied() == 0,
            r matches Some(s) ==> s < SLOTS_NUM && next_occupied(
                self.occupied(),
                (now as nat / spec_slot_range(self.index() as nat)) as int,
                s as int,
            ),
    {
        if self.occupied == 0 {
            return None;
        }
        let now_slot = now / slot_range(self.level);
        let occupied = u64_rotate_right(self.occupied, #[verifier::truncate] (now_slot as u32));
        let zeros = occupied.trailing_zeros();
        proof {
            let occ = self.occupied;
            let m = now_slot % 64;
            assert(((now_slot as u32) % 64) as u64 == now_slot % 64) by (bit_vector);
            assert(occupied == (occ >> m) | (occ << (((64 - m) % 64) as u64)));
            assert(occupied != 0) by (bit_vector)
                requires occ != 0 && m < 64 && occupied == (occ >> m) | (occ << (((64 - m) % 64) as u64));
            axiom_u64_trailing_zeros(occupied);
            let tz = zeros as u64;
            assert forall|j: u64| j < 64 implies ((occupied >> j) & 1u64) == ((occ >> (((j + m) % 64) as u64)) & 1u64) by {
                assert(((occupied >> j) & 1u64) == ((occ >> (((j + m) % 64) as u64)) & 1u64)) by (bit_vector)
                    requires j < 64 && m < 64 && occupied == (occ >> m) | (occ << (((64 - m) % 64) as u64));
            }
            assert(((occupied >> tz) & 1u64) == ((occ >> (((tz + m) % 64) as u64)) & 1u64));
            let s = ((tz + now_slot) % 64) as int;
            vstd::arithmetic::div_mod::lemma_add_mod_noop(tz as int, now_slot as int, 64);
            assert(s == (tz + m) % 64);
            assert(bit_set(occ, s as u64));
            assert forall|j: int| 0 <= j < tz implies !#[trigger] bit_set(occ, ((now_slot + j) % 64) as u64) by {
                let jj = j as u64;
                assert(((occupied >> jj) & 1u64) == ((occ >> (((jj + m) % 64) as u64)) & 1u64));
                vstd::arithmetic::div_mod::lemma_add_mod_noop(j, now_slot as int, 64);
                assert((now_slot + j) % 64 == (jj + m) % 64);
            }
            assert(first_set_at(occ, now_slot as int, tz as int));
            assert(next_occupied(occ, now_slot as int, s));
        }
        let slot = (zeros as u64 + now_slot) % (SLOTS_NUM as u64);
        Some(slot as usize)
    }

    /// Where this level's next expiration lies and when it falls: the level,
    /// the next occupied slot after `now`, and the start of that slot within
    /// the span of the level that holds `now`.
    pub fn next_expiration(&self, now: u64) -> (r: Option<(usize, usize, u64)>)
        requires
            self.wf(),
            now as nat / spec_slot_range(self.index() as nat) + 63 <= u64::MAX,
        ensures
            r is None <==> self.occupied() == 0,
            r matches Some((l, s, d)) ==> {
                &&& l == self.index()
                &&& s < SLOTS_NUM
                &&& next_occupied(self.occupied(), (now as nat / spec_slot_range(self.index() as nat)) as int, s as int)
                &&& d == now - now as nat % spec_level_range(l as nat) + s * spec_slot_range(l as nat)
            },
    {
        let slot = match self.next_occupied_slot(now) {
            Some(s) => s,
            None => {
                return None;
            },
        };
        let level_range = level_range(self.level);
        let slot_range = slot_range(self.level);
        proof {
            let n = (6 * self.level + 6) as nat;
            let lr = level_range;
            let sr = slot_range;
            lemma2_to64();
            lemma_pow2_strictly_increases(n, 37);
            vstd::arithmetic::power2::lemma2_to64_rest();
            lemma_u64_low_bits_mask_is_mod(now, n);
            assert(low_bits_mask(n) as u64 == lr - 1);
            assert(now & !((lr - 1) as u64) == now - (now & ((lr - 1) as u64))) by (bit_vector);
            assert((now & !((lr - 1) as u64)) + (lr - 1) <= u64::MAX) by (bit_vector)
                requires lr >= 1;
            assert(lr == 64 * sr) by {
                vstd::arithmetic::power2::lemma_pow2_adds(6 * self.level as nat, 6);
            }
            assert(slot * sr <= 63 * sr) by (nonlinear_arith)
                requires slot < 64;
        }
        let level_start = now & !(level_range - 1);
        let deadline = level_start + slot as u64 * slot_range;
        Some((self.level, slot, deadline))
    }
}

/// The number of set bits of `x`.
pub open spec fn popcount(x: u64) -> nat
    decreases x,
{
    if x == 0 {
        0
    } else {
        (x % 2) as nat + popcount(x / 2)
    }
}

/// Clearing a set bit takes one from the count of set bits.
proof fn lemma_popcount_clear(x: u64, s: u64)
    requires
        s < 64,
        bit_set(x, s),
    ensures
        popcount(x & !(1u64 << s)) + 1 == popcount(x),
    decreases s,
{
    let y = x & !(1u64 << s);
    assert(popcount(y) == (y % 2) as nat + popcount(y / 2));
    if s == 0 {
        assert(y % 2 == 0 && y / 2 == x / 2 && x % 2 == 1) by (bit_vector)
            requires
                (x >> 0u64) & 1u64 == 1u64,
                y == x & !(1u64 << 0u64),
        ;
    } else {
        let t = (s - 1) as u64;
        assert(y % 2 == x % 2 && y / 2 == (x / 2) & !(1u64 << t) && ((x / 2) >> t) & 1u64 == 1u64
            && x != 0) by (bit_vector)
            requires
                (x >> s) & 1u64 == 1u64,
                y == x & !(1u64 << s),
                0 < s < 64,
                t == s - 1,
        ;
        lemma_popcount_clear(x / 2, t);
    }
}

/// The number of set bits over the first `n` levels.
pub open spec fn bits_of(levels: Seq<Level>, n: int) -> nat
    decreases n,
{
    if n <= 0 {
        0
    } else {
        bits_of(levels, n - 1) + popcount(levels[n - 1].occupied())
    }
}

proof fn lemma_bits_of_clear(a: Seq<Level>, b: Seq<Level>, i: int, n: int)
    requires
        0 <= i < n <= a.len(),
        a.len() == b.len(),
        forall|j: int| 0 <= j < a.len() && j != i ==> #[trigger] b[j].occupied() == a[j].occupied(),
        popcount(b[i].occupied()) + 1 == popcount(a[i].occupied()),
    ensures
        bits_of(b, n) + 1 == bits_of(a, n),
    decreases n,
{
    if n - 1 > i {
        lemma_bits_of_clear(a, b, i, n - 1);
    } else {
        lemma_bits_of_same(a, b, i);
    }
}

proof fn lemma_bits_of_same(a: Seq<Level>, b: Seq<Level>, n: int)
    requires
        0 <= n <= a.len(),
        a.len() == b.len(),
        forall|j: int| 0 <= j < n ==> #[trigger] b[j].occupied() == a[j].occupied(),
    ensures
        bits_of(b, n) == bits_of(a, n),
    decreases n,
{
    if n > 0 {
        lemma_bits_of_same(a, b, n - 1);
    }
}

/// Two starting points of the search for the next occupied slot agree.
proof fn lemma_next_occupied_unique(occ: u64, start: int, s1: int, s2: int)
    requires
        next_occupied(occ, start, s1),
        next_occupied(occ, start, s2),
    ensures
        s1 == s2,
{
    let k1 = choose|k: int| #[trigger] first_set_at(occ, start, k) && s1 == (start + k) % 64;
    let k2 = choose|k: int| #[trigger] first_set_at(occ, start, k) && s2 == (start + k) % 64;
    if k1 < k2 {
        assert(!bit_set(occ, ((start + k1) % 64) as u64));
    }
    if k2 < k1 {
        assert(!bit_set(occ, ((start + k2) % 64) as u64));
    }
}

/// The next expiration of one level when the wheel is at `now`.
pub open spec fn level_next(lv: Level, now: u64) -> Option<(usize, usize, u64)> {
    if lv.occupied() == 0 {
        None
    } else {
        let sr = spec_slot_range(lv.index() as nat);
        let s = choose|s: int| 0 <= s < 64 && #[trigger] next_occupied(lv.occupied(), (now as nat / sr) as int, s);
        Some(
            (
                lv.index(),
                s as usize,
                (now - now as nat % spec_level_range(lv.index() as nat) + s * sr) as u64,
            ),
        )
    }
}

/// The next expiration over the levels from `from` on, lowest level first.
pub open spec fn levels_next(levels: Seq<Level>, from: int, now: u64) -> Option<(usize, usize, u64)>
    decreases LEVELS_NUM - from,
{
    if from < 0 || from >= LEVELS_NUM {
        None
    } else {
        match level_next(levels[from], now) {
            Some(e) => Some(e),
            None => levels_next(levels, from + 1, now),
        }
    }
}

/// Nothing is due: there is no expiration, or it lies after `limit`.
pub open spec fn none_due(e: Option<(usize, usize, u64)>, limit: int) -> bool {
    match e {
        None => true,
        Some((_, _, d)) => d > limit,
    }
}

/// On the way from `before` to `after`, a poll at `now` reached the wheel `w`:
/// `before` itself, or `before` moved to `now` with the bits of some empty
/// slots cleared. The next expiration of `w`, seen from its elapsed time, is
/// due by `now`; its slot held `taken`, not empty, and `after` is `w` with that
/// slot emptied and its bit cleared.
pub open spec fn slot_taken(w: Wheel, before: Wheel, after: Wheel, now: u64, taken: Seq<TimerHandle>) -> bool {
    &&& w.last_elapsed_ms() == before.last_elapsed_ms()
    &&& before.last_elapsed_ms() <= w.elapsed_ms()
    &&& (w.elapsed_ms() == before.elapsed_ms() && w.levels() == before.levels()) || w.elapsed_ms() == now
    &&& forall|l: int, s: int| 0 <= l < LEVELS_NUM && 0 <= s < SLOTS_NUM ==> #[trigger] w.slot(l, s) == before.slot(l, s)
    &&& match w.expiration_at((w.elapsed_ms() - before.last_elapsed_ms()) as u64) {
        None => false,
        Some((l, s, d)) => {
            &&& l < LEVELS_NUM
            &&& s < SLOTS_NUM
            &&& d <= now - before.last_elapsed_ms()
            &&& taken.len() > 0
            &&& taken == w.slot(l as int, s as int)
            &&& after.slot(l as int, s as int).len() == 0
            &&& after.occupied(l as int) == w.occupied(l as int) & !(1u64 << (s as u64))
            &&& forall|l2: int, s2: int| 0 <= l2 < LEVELS_NUM && 0 <= s2 < SLOTS_NUM && (l2, s2) != (l as int, s as int)
                ==> #[trigger] after.slot(l2, s2) == w.slot(l2, s2)
            &&& forall|l2: int| 0 <= l2 < LEVELS_NUM && l2 != l ==> #[trigger] after.occupied(l2) == w.occupied(l2)
        },
    }
}

/// A poll of `before` at `now` that found no expired handle waiting handed
/// out `r` from the slot it took on the way to `after` (see `slot_taken`):
/// `r` is the last handle of that slot, and the rest are `after`'s expired
/// handles.
pub open spec fn handed_from(w: Wheel, before: Wheel, after: Wheel, now: u64, r: Option<TimerHandle>) -> bool {
    &&& r is Some
    &&& slot_taken(w, before, after, now, after.triggered().push(r->0))
}

/// Wheels with the same levels have the same slots; with the same expired
/// handles too, they hold the same handles.
proof fn lemma_same_contents(a: Wheel, b: Wheel)
    requires
        a.levels() == b.levels(),
    ensures
        forall|l: int, s: int| #[trigger] a.slot(l, s) == b.slot(l, s),
        a.triggered() == b.triggered() ==> forall|h: TimerHandle| #[trigger] a.holds(h) == b.holds(h),
{
    assert forall|l: int, s: int| #[trigger] a.slot(l, s) == b.slot(l, s) by {}
    if a.triggered() == b.triggered() {
        assert forall|h: TimerHandle| #[trigger] a.holds(h) == b.holds(h) by {
            if a.holds(h) && !a.triggered().contains(h) {
                let (l, s) = choose|l: int, s: int|
                    0 <= l < LEVELS_NUM && 0 <= s < SLOTS_NUM && #[trigger] a.slot(l, s).contains(h);
                assert(b.slot(l, s).contains(h));
            }
            if b.holds(h) && !b.triggered().contains(h) {
                let (l, s) = choose|l: int, s: int|
                    0 <= l < LEVELS_NUM && 0 <= s < SLOTS_NUM && #[trigger] b.slot(l, s).contains(h);
                assert(a.slot(l, s).contains(h));
            }
        }
    }
}

/// A timing wheel: the clocks in its levels, and the handles of expired
/// clocks waiting to be handed out.
pub struct Wheel {
    elapsed: u64,
    last_elapsed: u64,
    levels: Vec<Level>,
    trigger: VecDeque<TimerHandle>,
}

impl Wheel {
    /// Milliseconds since the wheel started.
    pub closed spec fn elapsed_ms(self) -> u64 {
        self.elapsed
    }

    /// Milliseconds from the start to the end of the last run of expired work.
    pub closed spec fn last_elapsed_ms(self) -> u64 {
        self.last_elapsed
    }

    /// The levels of the wheel.
    pub closed spec fn levels(self) -> Seq<Level> {
        self.levels@
    }

    /// The handles of expired clocks, the next one to hand out last.
    pub closed spec fn triggered(self) -> Seq<TimerHandle> {
        self.trigger@
    }

    /// The handles in slot `s` of level `l`.
    pub open spec fn slot(self, l: int, s: int) -> Seq<TimerHandle> {
        self.levels()[l].slot(s)
    }

    /// The slot bits of level `l`.
    pub open spec fn occupied(self, l: int) -> u64 {
        self.levels()[l].occupied()
    }

    /// Whether the wheel holds `h`, in a slot or among the expired.
    pub open spec fn holds(self, h: TimerHandle) -> bool {
        self.triggered().contains(h) || exists|l: int, s: int|
            0 <= l < LEVELS_NUM && 0 <= s < SLOTS_NUM && #[trigger] self.slot(l, s).contains(h)
    }

    /// The slots and bits of levels of `a` and `b` agree.
    pub open spec fn same_levels(a: Wheel, b: Wheel) -> bool {
        &&& forall|l: int, s: int| 0 <= l < LEVELS_NUM && 0 <= s < SLOTS_NUM ==> #[trigger] a.slot(l, s) == b.slot(l, s)
        &&& forall|l: int| 0 <= l < LEVELS_NUM ==> #[trigger] a.occupied(l) == b.occupied(l)
    }

    /// The total number of set slot bits.
    pub open spec fn bit_count(self) -> nat {
        bits_of(self.levels(), LEVELS_NUM as int)
    }

    /// The next expiration when the wheel is at `now`.
    pub open spec fn expiration_at(self, now: u64) -> Option<(usize, usize, u64)> {
        levels_next(self.levels(), 0, now)
    }

    /// The wheel has its levels in order, each consistent.
    pub closed spec fn wf(self) -> bool {
        &&& self.levels@.len() == LEVELS_NUM
        &&& forall|l: int| 0 <= l < LEVELS_NUM ==> (#[trigger] self.levels@[l]).wf() && self.levels@[l].index() == l
    }

    /// An empty wheel at time zero.
    pub fn new() -> (w: Wheel)
        ensures
            w.wf(),
            w.elapsed_ms() == 0,
            w.last_elapsed_ms() == 0,
            w.triggered().len() == 0,
            forall|l: int, s: int| 0 <= l < LEVELS_NUM && 0 <= s < SLOTS_NUM ==> #[trigger] w.slot(l, s).len() == 0,
            forall|l: int| 0 <= l < LEVELS_NUM ==> #[trigger] w.occupied(l) == 0,
    {
        let mut levels: Vec<Level> = Vec::new();
        let mut i: usize = 0;
        while i < LEVELS_NUM
            invariant
                i <= LEVELS_NUM,
                levels@.len() == i,
                forall|l: int| 0 <= l < i ==> {
                    &&& (#[trigger] levels@[l]).wf()
                    &&& levels@[l].index() == l
                    &&& levels@[l].occupied() == 0
                    &&& forall|s: int| 0 <= s < 64 ==> #[trigger] levels@[l].slot(s).len() == 0
                },
            decreases LEVELS_NUM - i,
        {
            levels.push(Level::new(i));
            i = i + 1;
        }
        Wheel { elapsed: 0, last_elapsed: 0, levels, trigger: VecDeque::new() }
    }

    /// The number of levels.
    pub fn level_count(&self) -> (r: usize)
        requires
            self.wf(),
        ensures
            r == LEVELS_NUM,
    {
        self.levels.len()
    }

    /// Milliseconds since the wheel started.
    pub fn elapsed(&self) -> (r: u64)
        ensures
            r == self.elapsed_ms(),
    {
        self.elapsed
    }

    /// Sets the milliseconds since the wheel started.
    pub fn set_elapsed(&mut self, elapsed: u64)
        ensures
            final(self).elapsed_ms() == elapsed,
            final(self).last_elapsed_ms() == old(self).last_elapsed_ms(),
            final(self).levels() == old(self).levels(),
            final(self).triggered() == old(self).triggered(),
            final(self).wf() == old(self).wf(),
    {
        self.elapsed = elapsed;
    }

    /// Milliseconds from the start to the end of the last run of expired work.
    pub fn last_elapsed(&self) -> (r: u64)
        ensures
            r == self.last_elapsed_ms(),
    {
        self.last_elapsed
    }

    /// Sets the milliseconds from the start to the end of the last run.
    pub fn set_last_elapsed(&mut self, last_elapsed: u64)
        ensures
            final(self).last_elapsed_ms() == last_elapsed,
            final(self).elapsed_ms() == old(self).elapsed_ms(),
            final(self).levels() == old(self).levels(),
            final(self).triggered() == old(self).triggered(),
            final(self).wf() == old(self).wf(),
    {
        self.last_elapsed = last_elapsed;
    }

    /// The level of a clock that expires at `expiration`, ahead of the wheel: the `l` with `64^l <= level_key(..) < 64^(l+1)`.
    pub fn find_level(&self, expiration: u64) -> (r: usize)
        requires
            self.elapsed_ms() <= expiration,
        ensures
            r < LEVELS_NUM,
            pow2(6 * r as nat) <= level_key((expiration - self.elapsed_ms()) as u64),
            level_key((expiration - self.elapsed_ms()) as u64) < pow2(6 * r as nat + 6),
    {
        let slot_mask: u64 = 63;
        let mut masked = (expiration - self.elapsed) | slot_mask;
        if masked >= MAX_DURATION {
            masked = MAX_DURATION - 1;
        }
        let leading_zeros = masked.leading_zeros() as usize;
        proof {
            let m = masked;
            let elapsed = self.elapsed;
            assert(m >= 63 && m < 0xf_ffff_ffff && (m >> 5u64) & 1u64 == 1u64) by (bit_vector)
                requires
                    m == (if ((expiration - elapsed) as u64 | 63u64) >= 0xf_ffff_ffffu64 {
                        0xf_ffff_fffeu64
                    } else {
                        (expiration - elapsed) as u64 | 63u64
                    }),
            ;
            axiom_u64_leading_zeros(m);
            let lz = u64_leading_zeros(m);
            assert(lz < 64);
            // No bit at or above 36 is set.
            assert forall|s: u64| 36 <= s < 64 implies (m >> s) & 1u64 == 0u64 by {
                assert(m < 0xf_ffff_ffff && 36 <= s < 64 ==> (m >> s) & 1u64 == 0u64) by (bit_vector);
            }
            assert(lz >= 28) by {
                if lz < 28 {
                    let s = (63 - lz) as u64;
                    assert((m >> s) & 1u64 != 0u64);
                    assert((m >> s) & 1u64 == 0u64);
                }
            }
            assert(lz <= 58) by {
                if lz > 58 {
                    assert(64 - lz <= 5);
                    assert((m >> 5u64) & 1u64 == 0u64);
                }
            }
            let sig = (63 - lz) as u64;
            assert((m >> sig) & 1u64 == 1u64) by {
                assert(((m >> sig) & 1u64) != 0u64 ==> ((m >> sig) & 1u64) == 1u64) by (bit_vector);
            }
            lemma_shift_bounds(m, sig);
            let top = (64 - lz) as u64;
            lemma_shift_bounds(m, top);
            let r = sig / 6;
            if 6 * r < sig {
                lemma_pow2_strictly_increases((6 * r) as nat, sig as nat);
            }
            if (top as int) < 6 * r + 6 {
                lemma_pow2_strictly_increases(top as nat, (6 * r + 6) as nat);
            }
        }
        let significant = 63 - leading_zeros;
        significant / 6
    }


    /// Puts `clock` in the wheel: refused when it expires no later than now;
    /// else it goes to the level that `find_level` picks, which is recorded
    /// in it, and the expiration is returned.
    pub fn insert(&mut self, clock: &mut Clock) -> (r: Result<u64, ()>)
        requires
            old(self).wf(),
        ensures
            final(self).wf(),
            final(self).elapsed_ms() == old(self).elapsed_ms(),
            final(self).last_elapsed_ms() == old(self).last_elapsed_ms(),
            final(self).triggered() == old(self).triggered(),
            old(clock).expiration <= old(self).elapsed_ms() ==> {
                &&& r is Err
                &&& *final(clock) == *old(clock)
                &&& Wheel::same_levels(*final(self), *old(self))
            },
            old(clock).expiration > old(self).elapsed_ms() ==> {
                let d = (old(clock).expiration - old(self).elapsed_ms()) as u64;
                let l = final(clock).level as int;
                let s = slot_for(d, l as nat);
                &&& r == Ok::<u64, ()>(old(clock).expiration)
                &&& *final(clock) == (Clock { level: l as usize, duration: d, ..*old(clock) })
                &&& l < LEVELS_NUM
                &&& pow2(6 * l as nat) <= level_key(d) < pow2(6 * l as nat + 6)
                &&& 0 <= s < SLOTS_NUM
                &&& final(self).slot(l, s) == seq![TimerHandle { inner: old(clock).id }] + old(self).slot(l, s)
                &&& final(self).occupied(l) == old(self).occupied(l) | (1u64 << (s as u64))
                &&& forall|l2: int, s2: int| 0 <= l2 < LEVELS_NUM && 0 <= s2 < SLOTS_NUM && (l2, s2) != (l, s) ==> #[trigger] final(self).slot(l2, s2) == old(self).slot(l2, s2)
                &&& forall|l2: int| 0 <= l2 < LEVELS_NUM && l2 != l ==> #[trigger] final(self).occupied(l2) == old(self).occupied(l2)
            },
    {
        let expiration = clock.expiration();
        if expiration <= self.elapsed {
            return Err(());
        }
        let level = self.find_level(expiration);
        clock.set_level(level);
        let ghost old_levels = self.levels@;
        proof {
            assert(self.levels@[level as int].wf());
        }
        let elapsed = self.elapsed;
        self.levels[level].insert(clock, elapsed);
        proof {
            assert forall|l: int| 0 <= l < LEVELS_NUM implies (#[trigger] self.levels@[l]).wf() && self.levels@[l].index() == l by {
                if l != level {
                    assert(self.levels@[l] == old_levels[l]);
                }
            }
            assert forall|l2: int, s2: int| 0 <= l2 < LEVELS_NUM && 0 <= s2 < SLOTS_NUM && (l2, s2) != (level as int, slot_for(clock.duration, level as nat)) implies #[trigger] self.slot(l2, s2) == old_levels[l2].slot(s2) by {
                if l2 != level {
                    assert(self.levels@[l2] == old_levels[l2]);
                }
            }
            assert forall|l2: int| 0 <= l2 < LEVELS_NUM && l2 != level implies #[trigger] self.occupied(l2) == old_levels[l2].occupied() by {
                assert(self.levels@[l2] == old_levels[l2]);
            }
        }
        Ok(expiration)
    }

    /// Takes `clock` out of the wheel: the first of its handle from the slot
    /// that its recorded level and distance select, and the first from the
    /// expired handles.
    pub fn cancel(&mut self, clock: &Clock)
        requires
            old(self).wf(),
            clock.level < LEVELS_NUM,
        ensures
            final(self).wf(),
            final(self).elapsed_ms() == old(self).elapsed_ms(),
            final(self).last_elapsed_ms() == old(self).last_elapsed_ms(),
            final(self).triggered() == remove_first(old(self).triggered(), TimerHandle { inner: clock.id }),
            ({
                let l = clock.level as int;
                let s = slot_for(clock.duration, l as nat);
                &&& 0 <= s < SLOTS_NUM
                &&& final(self).slot(l, s) == remove_first(old(self).slot(l, s), TimerHandle { inner: clock.id })
                &&& final(self).occupied(l) == if final(self).slot(l, s).len() == 0 {
                    old(self).occupied(l) ^ (1u64 << (s as u64))
                } else {
                    old(self).occupied(l)
                }
                &&& forall|l2: int, s2: int| 0 <= l2 < LEVELS_NUM && 0 <= s2 < SLOTS_NUM && (l2, s2) != (l, s) ==> #[trigger] final(self).slot(l2, s2) == old(self).slot(l2, s2)
                &&& forall|l2: int| 0 <= l2 < LEVELS_NUM && l2 != l ==> #[trigger] final(self).occupied(l2) == old(self).occupied(l2)
            }),
    {
        let level = clock.level();
        let ghost old_levels = self.levels@;
        proof {
            assert(self.levels@[level as int].wf());
        }
        self.levels[level].cancel(clock);
        proof {
            assert forall|l: int| 0 <= l < LEVELS_NUM implies (#[trigger] self.levels@[l]).wf() && self.levels@[l].index() == l by {
                if l != level {
                    assert(self.levels@[l] == old_levels[l]);
                }
            }
            assert forall|l2: int, s2: int| 0 <= l2 < LEVELS_NUM && 0 <= s2 < SLOTS_NUM && (l2, s2) != (level as int, slot_for(clock.duration, level as nat)) implies #[trigger] self.slot(l2, s2) == old_levels[l2].slot(s2) by {
                if l2 != level {
                    assert(self.levels@[l2] == old_levels[l2]);
                }
            }
            assert forall|l2: int| 0 <= l2 < LEVELS_NUM && l2 != level implies #[trigger] self.occupied(l2) == old_levels[l2].occupied() by {
                assert(self.levels@[l2] == old_levels[l2]);
            }
        }
        let h = clock.handle();
        match find_first(&self.trigger, h) {
            Some(index) => {
                let _ = self.trigger.remove(index);
            },
            None => {},
        }
    }

    /// The next expiration of the wheel: that of its lowest level with a slot
    /// bit set, at the time since the last run.
    pub fn next_expiration(&self) -> (r: Option<(usize, usize, u64)>)
        requires
            self.wf(),
            self.last_elapsed_ms() <= self.elapsed_ms(),
            self.elapsed_ms() - self.last_elapsed_ms() + 63 <= u64::MAX,
        ensures
            r == self.expiration_at((self.elapsed_ms() - self.last_elapsed_ms()) as u64),
            r matches Some((l, s, _)) ==> l < LEVELS_NUM && s < SLOTS_NUM && bit_set(self.occupied(l as int), s as u64),
    {
        let now = self.elapsed - self.last_elapsed;
        let mut level: usize = 0;
        while level < LEVELS_NUM
            invariant
                self.wf(),
                level <= LEVELS_NUM,
                now + 63 <= u64::MAX,
                now == self.elapsed - self.last_elapsed,
                levels_next(self.levels@, 0, now) == levels_next(self.levels@, level as int, now),
            decreases LEVELS_NUM - level,
        {
            proof {
                assert(self.levels@[level as int].wf());
                let sr = spec_slot_range(level as nat);
                vstd::arithmetic::power2::lemma_pow2_pos(6 * level as nat);
                vstd::arithmetic::div_mod::lemma_div_is_ordered_by_denominator(now as int, 1, sr as int);
            }
            let e = self.levels[level].next_expiration(now);
            match e {
                Some(found) => {
                    proof {
                        let lv = self.levels@[level as int];
                        let sr = spec_slot_range(level as nat);
                        let st = (now as nat / sr) as int;
                        let c = choose|s: int| 0 <= s < 64 && #[trigger] next_occupied(lv.occupied(), st, s);
                        assert(0 <= found.1 < 64 && next_occupied(lv.occupied(), st, found.1 as int));
                        lemma_next_occupied_unique(lv.occupied(), st, c, found.1 as int);
                        assert(c == found.1 as int);
                        assert(lv.occupied() != 0);
                        assert(lv.index() == level);
                        assert(level_next(lv, now) == Some(found));
                        assert(levels_next(self.levels@, level as int, now) == Some(found));
                        let k = choose|k: int| #[trigger] first_set_at(lv.occupied(), st, k) && found.1 == (st + k) % 64;
                        assert(first_set_at(lv.occupied(), st, k));
                    }
                    return Some(found);
                },
                None => {},
            }
            level = level + 1;
        }
        None
    }

    /// Moves every handle of slot `e.1` of level `e.0` to the front of the
    /// expired handles, keeping their order, and clears the slot's bit.
    pub fn process_expiration(&mut self, expiration: &(usize, usize, u64))
        requires
            old(self).wf(),
            expiration.0 < LEVELS_NUM,
            expiration.1 < SLOTS_NUM,
        ensures
            final(self).wf(),
            final(self).elapsed_ms() == old(self).elapsed_ms(),
            final(self).last_elapsed_ms() == old(self).last_elapsed_ms(),
            ({
                let l = expiration.0 as int;
                let s = expiration.1 as int;
                &&& final(self).triggered() == old(self).slot(l, s) + old(self).triggered()
                &&& final(self).slot(l, s).len() == 0
                &&& final(self).occupied(l) == old(self).occupied(l) & !(1u64 << (s as u64))
                &&& forall|l2: int, s2: int| 0 <= l2 < LEVELS_NUM && 0 <= s2 < SLOTS_NUM && (l2, s2) != (l, s) ==> #[trigger] final(self).slot(l2, s2) == old(self).slot(l2, s2)
                &&& forall|l2: int| 0 <= l2 < LEVELS_NUM && l2 != l ==> #[trigger] final(self).occupied(l2) == old(self).occupied(l2)
            }),
    {
        let ghost old_levels = self.levels@;
        let ghost old_trigger = self.trigger@;
        let level = expiration.0;
        let slot = expiration.1;
        proof {
            assert(self.levels@[level as int].wf());
        }
        let mut handles = self.levels[level].take_slot(slot);
        let ghost taken = handles@;
        let ghost mid = self.levels@;
        proof {
            assert(taken.subrange(taken.len() as int, taken.len() as int) + old_trigger =~= old_trigger);
        }
        while handles.len() > 0
            invariant
                handles@.len() <= taken.len(),
                handles@ == taken.subrange(0, handles@.len() as int),
                self.elapsed == old(self).elapsed,
                self.last_elapsed == old(self).last_elapsed,
                self.trigger@ == taken.subrange(handles@.len() as int, taken.len() as int) + old_trigger,
                self.levels@ == mid,
            decreases handles@.len(),
        {
            let item = handles.pop_back();
            match item {
                Some(h) => {
                    let ghost n = handles@.len();
                    self.trigger.push_front(h);
                    proof {
                        assert(taken.subrange(n as int, taken.len() as int) =~= seq![h] + taken.subrange(n as int + 1, taken.len() as int));
                        assert(handles@ =~= taken.subrange(0, n as int));
                    }
                },
                None => {},
            }
        }
        proof {
            assert forall|l: int| 0 <= l < LEVELS_NUM implies (#[trigger] self.levels@[l]).wf() && self.levels@[l].index() == l by {
                if l != level {
                    assert(self.levels@[l] == old_levels[l]);
                }
            }
            assert forall|l2: int, s2: int| 0 <= l2 < LEVELS_NUM && 0 <= s2 < SLOTS_NUM && (l2, s2) != (level as int, slot as int) implies #[trigger] self.slot(l2, s2) == old_levels[l2].slot(s2) by {
                if l2 != level {
                    assert(self.levels@[l2] == old_levels[l2]);
                }
            }
            assert forall|l2: int| 0 <= l2 < LEVELS_NUM && l2 != level implies #[trigger] self.occupied(l2) == old_levels[l2].occupied() by {
                assert(self.levels@[l2] == old_levels[l2]);
            }
        }
        proof {
            assert(taken.subrange(0, taken.len() as int) =~= taken);
        }
    }

    /// Hands out the next expired clock at time `now`: the last of the
    /// expired handles if there is one; else the wheel moves to `now`,
    /// emptying each due slot into the expired handles until one yields a
    /// handle or nothing more is due.
    pub fn poll(&mut self, now: u64) -> (r: Option<TimerHandle>)
        requires
            old(self).wf(),
            old(self).last_elapsed_ms() <= old(self).elapsed_ms(),
            old(self).last_elapsed_ms() <= now,
            old(self).elapsed_ms() - old(self).last_elapsed_ms() + 63 <= u64::MAX,
            now - old(self).last_elapsed_ms() + 63 <= u64::MAX,
        ensures
            final(self).wf(),
            final(self).last_elapsed_ms() == old(self).last_elapsed_ms(),
            old(self).triggered().len() > 0 ==> {
                &&& r == Some(old(self).triggered().last())
                &&& final(self).triggered() == old(self).triggered().drop_last()
                &&& final(self).elapsed_ms() == old(self).elapsed_ms()
                &&& final(self).levels() == old(self).levels()
            },
            old(self).triggered().len() == 0 ==> final(self).elapsed_ms() == now,
            forall|h: TimerHandle| #[trigger] old(self).holds(h) <==> (final(self).holds(h) || r == Some(h)),
            forall|l: int, s: int|
                0 <= l < LEVELS_NUM && 0 <= s < SLOTS_NUM ==> (#[trigger] final(self).slot(l, s) == old(self).slot(l, s) || final(self).slot(l, s).len() == 0),
            old(self).triggered().len() == 0 && r is Some ==> exists|w: Wheel| #[trigger] handed_from(
                w,
                *old(self),
                *final(self),
                now,
                r,
            ),
            r is None ==> {
                &&& final(self).triggered().len() == 0
                &&& {
                    ||| final(self).levels() == old(self).levels() && none_due(
                        final(self).expiration_at((old(self).elapsed_ms() - old(self).last_elapsed_ms()) as u64),
                        now - old(self).last_elapsed_ms(),
                    )
                    ||| none_due(
                        final(self).expiration_at((now - old(self).last_elapsed_ms()) as u64),
                        now - old(self).last_elapsed_ms(),
                    )
                }
            },
    {
        let ghost old_self = *self;
        let ghost mut first = true;
        let ghost mut cand = *self;
        loop
            invariant_except_break
                old_self == *old(self),
                self.wf(),
                self.last_elapsed == old_self.last_elapsed,
                self.last_elapsed <= self.elapsed,
                self.elapsed - self.last_elapsed + 63 <= u64::MAX,
                self.last_elapsed <= now,
                now - self.last_elapsed + 63 <= u64::MAX,
                first ==> self.levels@ == old_self.levels@ && self.elapsed == old_self.elapsed && self.trigger@ == old_self.trigger@,
                !first ==> self.elapsed == now && old_self.trigger@.len() == 0,
                !first && self.trigger@.len() == 0 ==> forall|l: int, s: int|
                    0 <= l < LEVELS_NUM && 0 <= s < SLOTS_NUM ==> #[trigger] self.slot(l, s) == old_self.slot(l, s),
                !first && self.trigger@.len() > 0 ==> slot_taken(cand, old_self, *self, now, self.trigger@),
                forall|h: TimerHandle| #[trigger] old_self.holds(h) <==> self.holds(h),
                forall|l: int, s: int|
                    0 <= l < LEVELS_NUM && 0 <= s < SLOTS_NUM ==> (#[trigger] self.slot(l, s) == old_self.slot(l, s)
                        || self.slot(l, s).len() == 0),
            ensures
                old_self == *old(self),
                self.wf(),
                self.last_elapsed == old_self.last_elapsed,
                self.trigger@.len() == 0,
                self.elapsed == now,
                old_self.trigger@.len() == 0,
                forall|h: TimerHandle| #[trigger] old_self.holds(h) <==> self.holds(h),
                forall|l: int, s: int|
                    0 <= l < LEVELS_NUM && 0 <= s < SLOTS_NUM ==> (#[trigger] self.slot(l, s) == old_self.slot(l, s)
                        || self.slot(l, s).len() == 0),
                (self.levels@ == old_self.levels@ && none_due(
                    self.expiration_at((old_self.elapsed - old_self.last_elapsed) as u64),
                    now - old_self.last_elapsed,
                )) || none_due(
                    self.expiration_at((now - old_self.last_elapsed) as u64),
                    now - old_self.last_elapsed,
                ),
            decreases self.bit_count(),
        {
            let ghost before = *self;
            match self.trigger.pop_back() {
                Some(h) => {
                    proof {
                        assert(self.levels() == before.levels());
                        lemma_same_contents(*self, before);
                        let t = before.trigger@;
                        assert(t =~= self.trigger@.push(h));
                        if old_self.trigger@.len() == 0 {
                            assert(!first);
                            assert(self.triggered().push(h) == t);
                            assert(slot_taken(cand, old_self, before, now, t));
                            let e = cand.expiration_at((cand.elapsed_ms() - old_self.last_elapsed_ms()) as u64);
                            let l = (e->0).0 as int;
                            assert(self.occupied(l) == before.occupied(l));
                            assert forall|l2: int| 0 <= l2 < LEVELS_NUM && l2 != l implies #[trigger] self.occupied(l2)
                                == cand.occupied(l2) by {
                                assert(self.occupied(l2) == before.occupied(l2));
                            }
                            assert(slot_taken(cand, old_self, *self, now, t));
                            assert(handed_from(cand, old_self, *self, now, Some(h)));
                        }
                        assert forall|x: TimerHandle| #[trigger] old_self.holds(x) implies (self.holds(x) || Some(h) == Some(x)) by {
                            assert(before.holds(x));
                            if t.contains(x) && x != h {
                                let i = choose|i: int| 0 <= i < t.len() && t[i] == x;
                                assert(self.trigger@[i] == x);
                            }
                            if !t.contains(x) {
                                let (l, s) = choose|l: int, s: int|
                                    0 <= l < LEVELS_NUM && 0 <= s < SLOTS_NUM && #[trigger] before.slot(l, s).contains(x);
                                assert(self.slot(l, s).contains(x));
                            }
                        }
                        assert forall|x: TimerHandle| self.holds(x) || Some(h) == Some(x) implies #[trigger] old_self.holds(x) by {
                            if Some(h) == Some(x) {
                                assert(t[t.len() - 1] == x);
                            } else if self.trigger@.contains(x) {
                                let i = choose|i: int| 0 <= i < self.trigger@.len() && self.trigger@[i] == x;
                                assert(t[i] == x);
                            } else {
                                let (l, s) = choose|l: int, s: int|
                                    0 <= l < LEVELS_NUM && 0 <= s < SLOTS_NUM && #[trigger] self.slot(l, s).contains(x);
                                assert(before.slot(l, s).contains(x));
                            }
                            assert(before.holds(x));
                        }
                    }
                    return Some(h);
                },
                None => {},
            }
            let expiration = match self.next_expiration() {
                Some(e) => {
                    if e.2 > now - self.last_elapsed {
                        None
                    } else {
                        Some(e)
                    }
                },
                None => None,
            };
            match expiration {
                Some(e) if e.2 > now - self.last_elapsed => {
                    return None;
                },
                Some(e) => {
                    let ghost mid = *self;
                    self.process_expiration(&e);
                    let ghost after = *self;
                    self.set_elapsed(now);
                    proof {
                        cand = mid;
                        assert(self.levels() == after.levels());
                        assert(self.triggered() == after.triggered());
                        lemma_same_contents(*self, after);
                        lemma_same_contents(mid, before);
                        first = false;
                        let l = e.0 as int;
                        let s = e.1 as int;
                        let taken = mid.slot(l, s);
                        assert(mid.levels() == before.levels());
                        assert(mid.triggered().len() == 0);
                        assert forall|x: TimerHandle| #[trigger] old_self.holds(x) implies self.holds(x) by {
                            assert(before.holds(x));
                            let (l2, s2) = choose|l2: int, s2: int|
                                0 <= l2 < LEVELS_NUM && 0 <= s2 < SLOTS_NUM && #[trigger] before.slot(l2, s2).contains(x);
                            assert(mid.slot(l2, s2) == before.slot(l2, s2));
                            if (l2, s2) == (l, s) {
                                let i = choose|i: int| 0 <= i < taken.len() && taken[i] == x;
                                assert(self.triggered()[i] == x);
                            } else {
                                assert(after.slot(l2, s2) == mid.slot(l2, s2));
                                assert(self.slot(l2, s2).contains(x));
                            }
                        }
                        assert forall|x: TimerHandle| self.holds(x) implies #[trigger] old_self.holds(x) by {
                            if self.triggered().contains(x) {
                                let i = choose|i: int| 0 <= i < self.triggered().len() && self.triggered()[i] == x;
                                assert(self.triggered() =~= taken);
                                assert(mid.slot(l, s).contains(x));
                                assert(before.slot(l, s).contains(x));
                            } else {
                                let (l2, s2) = choose|l2: int, s2: int|
                                    0 <= l2 < LEVELS_NUM && 0 <= s2 < SLOTS_NUM && #[trigger] self.slot(l2, s2).contains(x);
                                assert((l2, s2) != (l, s));
                                assert(after.slot(l2, s2) == mid.slot(l2, s2));
                                assert(mid.slot(l2, s2).contains(x));
                                assert(before.slot(l2, s2).contains(x));
                            }
                            assert(before.holds(x));
                        }
                        assert forall|l2: int, s2: int|
                            0 <= l2 < LEVELS_NUM && 0 <= s2 < SLOTS_NUM implies (#[trigger] self.slot(l2, s2) == old_self.slot(l2, s2)
                                || self.slot(l2, s2).len() == 0) by {
                            if (l2, s2) != (l, s) {
                                assert(after.slot(l2, s2) == mid.slot(l2, s2));
                                assert(self.slot(l2, s2) == mid.slot(l2, s2));
                            }
                        }
                        let occ = mid.occupied(l);
                        let sl = e.1 as u64;
                        lemma_popcount_clear(occ, sl);
                        assert forall|j: int| 0 <= j < mid.levels@.len() && j != l implies #[trigger] self.levels@[j].occupied() == mid.levels@[j].occupied() by {
                            assert(after.occupied(j) == mid.occupied(j));
                        }
                        lemma_bits_of_clear(mid.levels@, self.levels@, l, LEVELS_NUM as int);
                    }
                },
                None => {
                    let ghost mid = *self;
                    self.set_elapsed(now);
                    proof {
                        lemma_same_contents(mid, before);
                        lemma_same_contents(*self, mid);
                    }
                    break;
                },
            }
        }
        let ghost last = *self;
        let r = self.trigger.pop_back();
        proof {
            assert(self.levels() == last.levels());
            assert(self.triggered() == last.triggered());
            lemma_same_contents(*self, last);
        }
        r
    }
}

} // verus!
