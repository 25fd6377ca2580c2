//! The readiness state of one I/O source, and the tasks waiting on it.
//!
//! The status word holds, from the top: one reserved bit, a 7-bit generation
//! that tells reuses of the entry apart, the 8-bit tick of the driver run that
//! last set the readiness, and 16 bits of readiness.
use crate::net::ready::{interest_bits, ALL, READABLE, READ_CLOSED, WRITABLE, WRITE_CLOSED};
use crate::net::{Interest, LinkedList, Ready, ReadyEvent};
use crate::util::bit::{effective_shift, effective_width, run_mask, Bit, Mask};
use crate::util::slab::Entry;
use vstd::prelude::*;

verus! {

/// The generation field of a status word.
pub open spec fn generation_of(s: usize) -> usize {
    (s & 0x7f00_0000) >> 24usize
}

/// The driver tick field of a status word.
pub open spec fn tick_of(s: usize) -> usize {
    (s & 0xff_0000) >> 16usize
}

/// The readiness field of a status word.
pub open spec fn readiness_of(s: usize) -> usize {
    s & 0xffff
}

/// The status word with readiness `ready`, tick `tick` and generation `g`.
pub open spec fn status_word(ready: usize, tick: u8, g: usize) -> usize {
    (((ready & !0xff_0000usize) | (((tick as usize) << 16usize) & 0xff_0000usize)) & !0x7f00_0000usize) | ((g
        << 24usize) & 0x7f00_0000usize)
}

/// The mask of the generation field.
fn generation_mask() -> (m: Mask)
    ensures
        m.spec_mask() == 0x7f00_0000,
        m.spec_shift() == 24,
{
    let m = Mask::new(7, 24);
    proof {
        assert(effective_width(7) == 7);
        assert(effective_shift(7, 24) == 24);
        lemma_field_masks();
    }
    m
}

/// The mask of the driver tick field.
fn driver_tick_mask() -> (m: Mask)
    ensures
        m.spec_mask() == 0xff_0000,
        m.spec_shift() == 16,
{
    let m = Mask::new(8, 16);
    proof {
        assert(effective_width(8) == 8);
        assert(effective_shift(8, 16) == 16);
        lemma_field_masks();
    }
    m
}

/// The mask of the readiness field.
fn readiness_mask() -> (m: Mask)
    ensures
        m.spec_mask() == 0xffff,
        m.spec_shift() == 0,
{
    let m = Mask::new(16, 0);
    proof {
        assert(effective_width(16) == 16);
        assert(effective_shift(16, 0) == 0);
        lemma_field_masks();
    }
    m
}

/// Facts about the fields of a status word, and about the constants used with
/// them.
proof fn lemma_status_fields(s: usize)
    by (bit_vector)
    ensures
        tick_of(s) < 256,
        ((s & 0xffffusize) >> 0u32) == s & 0xffffusize,
        (s & 0x7f00_0000usize) >> 24u32 < 128,
        (0xfusize & 0xffffusize) & 0xfusize == 0xfusize,
        2u8 & 2u8 != 0 && 2u8 & 1u8 == 0 && 1u8 & 1u8 != 0,
        (s & 1usize != 0 || s & 4usize != 0) == (s & 5usize != 0),
        (s & 2usize != 0 || s & 8usize != 0) == (s & 10usize != 0),
{
}

/// A wake takes the reader exactly when its readiness is readable in the
/// sense of `Ready::is_readable` (readable, or closed for reading), and the
/// writer exactly when it is writable (writable, or closed for writing). A
/// reader it takes is the first waker given back, and a writer it takes comes
/// right after it; a side it does not take stays registered.
pub proof fn lemma_wake_takes_ready_sides(before: ScheduleIO, after: ScheduleIO, ready: usize, wakers: Seq<u64>)
    requires
        woke(before, after, ready, wakers),
    ensures
        (ready & READABLE != 0 || ready & READ_CLOSED != 0) ==> after.waiters.reader is None,
        !(ready & READABLE != 0 || ready & READ_CLOSED != 0) ==> after.waiters.reader == before.waiters.reader,
        (ready & WRITABLE != 0 || ready & WRITE_CLOSED != 0) ==> after.waiters.writer is None,
        !(ready & WRITABLE != 0 || ready & WRITE_CLOSED != 0) ==> after.waiters.writer == before.waiters.writer,
        (ready & READABLE != 0 || ready & READ_CLOSED != 0) && before.waiters.reader is Some ==> wakers.len() > 0
            && wakers[0] == before.waiters.reader->Some_0,
        (ready & WRITABLE != 0 || ready & WRITE_CLOSED != 0) && before.waiters.writer is Some ==> {
            let i: int = if (ready & READABLE != 0 || ready & READ_CLOSED != 0) && before.waiters.reader is Some {
                1
            } else {
                0
            };
            wakers.len() > i && wakers[i] == before.waiters.writer->Some_0
        },
{
    lemma_status_fields(ready);
    let head = woken_head(before, ready);
    let rest = woken_list(before.waiters.list.values(), ready, before.waiters.list.values().len() as int);
    assert(wakers == head + rest);
    assert(forall|i: int| 0 <= i < head.len() ==> #[trigger] wakers[i] == head[i]);
}

/// The masks of the three fields.
proof fn lemma_field_masks()
    by (bit_vector)
    ensures
        run_mask(7, 24) == 0x7f00_0000,
        run_mask(8, 16) == 0xff_0000,
        run_mask(16, 0) == 0xffff,
{
}

/// A status word with just generation `g + 1` set has that generation,
/// modulo the field's width, and nothing else.
proof fn lemma_next_generation(g: usize, st: usize)
    by (bit_vector)
    requires
        g < 128,
        st == (0usize & !0x7f00_0000usize) | ((((g + 1) as usize) << 24u32) & 0x7f00_0000usize),
    ensures
        st == ((g + 1) as usize) << 24usize & 0x7f00_0000usize,
        (st & 0x7f00_0000usize) >> 24usize == (g + 1) % 128,
        (st & 0xff_0000usize) >> 16usize == 0,
        st & 0xffffusize == 0,
{
}

/// How a readiness change treats the driver tick.
#[derive(Debug, Clone, Copy, PartialEq, Eq, Structural)]
pub enum Tick {
    /// Record this tick.
    Update(u8),
    /// Clear only if the readiness was set at this tick.
    Clear(u8),
}

/// Why a readiness change was refused.
#[derive(Debug, Clone, Copy, PartialEq, Eq, Structural)]
pub enum ScheduleIoError {
    /// The token belongs to an earlier use of the entry.
    TokenInvalid,
    /// The readiness was set again since the tick being cleared.
    Covered,
}

impl ScheduleIoError {
    /// A description of the error.
    pub fn as_str(&self) -> (s: &'static str)
        ensures
            *self == ScheduleIoError::TokenInvalid ==> s@ == "Token no longer valid."@,
            *self == ScheduleIoError::Covered ==> s@ == "Readiness has been covered."@,
    {
        match self {
            ScheduleIoError::TokenInvalid => "Token no longer valid.",
            ScheduleIoError::Covered => "Readiness has been covered.",
        }
    }
}

/// A task waiting on the source.
#[derive(Debug, Clone, Copy, PartialEq, Eq, Structural)]
pub struct Waiter {
    /// Who to wake, until woken.
    pub waker: Option<u64>,
    /// What it waits for.
    pub interest: Interest,
    /// Whether it was woken.
    pub is_ready: bool,
}

/// The tasks waiting on the source.
pub struct Waiters {
    /// Tasks waiting through a readiness future, oldest first.
    pub list: LinkedList<Waiter>,
    /// The reader waiting through a poll.
    pub reader: Option<u64>,
    /// The writer waiting through a poll.
    pub writer: Option<u64>,
    /// Whether the source was shut down.
    pub is_shutdown: bool,
}

/// The waiter at key `k` of `l`.
pub open spec fn waiter_at(l: LinkedList<Waiter>, k: u64) -> Waiter {
    l.values()[l.index_of_key(k)]
}

/// A waiter after a wake with readiness `ready`: woken if `ready` satisfies
/// it and it was not woken yet.
pub open spec fn after_wake(w: Waiter, ready: usize) -> Waiter {
    if ready & interest_bits(w.interest@) != 0 && w.waker is Some {
        Waiter { waker: None, interest: w.interest, is_ready: true }
    } else {
        w
    }
}

/// Whom a wake with readiness `ready` wakes of waiter `w`.
pub open spec fn woken_one(w: Waiter, ready: usize) -> Seq<u64> {
    if ready & interest_bits(w.interest@) != 0 && w.waker is Some {
        seq![w.waker->Some_0]
    } else {
        Seq::empty()
    }
}

/// Whom a wake with readiness `ready` wakes of the first `n` listed waiters,
/// in list order.
pub open spec fn woken_list(ws: Seq<Waiter>, ready: usize, n: int) -> Seq<u64>
    decreases n,
{
    if n <= 0 {
        Seq::empty()
    } else {
        woken_list(ws, ready, n - 1) + woken_one(ws[n - 1], ready)
    }
}

/// Whom a wake with readiness `ready` wakes of the reader and writer of `s`.
pub open spec fn woken_head(s: ScheduleIO, ready: usize) -> Seq<u64> {
    (if ready & 5 != 0 && s.waiters.reader is Some {
        seq![s.waiters.reader->Some_0]
    } else {
        Seq::empty()
    }) + (if ready & 10 != 0 && s.waiters.writer is Some {
        seq![s.waiters.writer->Some_0]
    } else {
        Seq::empty()
    })
}

/// `after` is `before` after a wake with readiness `ready` that gave back
/// `wakers`: the reader is taken if `ready` is readable, the writer if it is
/// writable, each listed waiter that `ready` satisfies is woken, and the
/// wakers are theirs, reader and writer first.
pub open spec fn woke(before: ScheduleIO, after: ScheduleIO, ready: usize, wakers: Seq<u64>) -> bool {
    &&& after.status == before.status
    &&& after.waiters.reader == (if ready & 5 != 0 { None } else { before.waiters.reader })
    &&& after.waiters.writer == (if ready & 10 != 0 { None } else { before.waiters.writer })
    &&& after.waiters.list.keys() == before.waiters.list.keys()
    &&& after.waiters.list.next_key() == before.waiters.list.next_key()
    &&& after.waiters.list.values() == before.waiters.list.values().map_values(|w: Waiter| after_wake(w, ready))
    &&& wakers == woken_head(before, ready) + woken_list(
        before.waiters.list.values(),
        ready,
        before.waiters.list.values().len() as int,
    )
}

/// The readiness state of an I/O source and its waiting tasks.
pub struct ScheduleIO {
    /// The status word.
    pub status: usize,
    /// The waiting tasks.
    pub waiters: Waiters,
}

impl ScheduleIO {
    /// The list is consistent, and every waiter not yet woken knows whom to
    /// wake.
    pub open spec fn wf(self) -> bool {
        &&& self.waiters.list.wf()
        &&& forall|i: int|
            0 <= i < self.waiters.list.values().len() ==> (#[trigger] self.waiters.list.values()[i]).is_ready
                || self.waiters.list.values()[i].waker is Some
    }

    /// A source with nothing ready, nobody waiting, and generation 0.
    pub fn new() -> (s: ScheduleIO)
        ensures
            s.wf(),
            s.status == 0,
            s.waiters.list.values().len() == 0,
            s.waiters.list.next_key() == 0,
            s.waiters.reader is None,
            s.waiters.writer is None,
            !s.waiters.is_shutdown,
    {
        ScheduleIO {
            status: 0,
            waiters: Waiters { list: LinkedList::new(), reader: None, writer: None, is_shutdown: false },
        }
    }

    /// The generation of the entry.
    pub fn generation(&self) -> (r: usize)
        ensures
            r == generation_of(self.status),
    {
        let base = Bit::from_usize(self.status);
        base.get_by_mask(generation_mask())
    }

    /// The readiness that satisfies `interest`, with the tick it was set at.
    pub fn get_readiness(&self, interest: Interest) -> (e: ReadyEvent)
        ensures
            e.spec_tick() == tick_of(self.status) as u8,
            e.spec_ready()@ == readiness_of(self.status) & ALL & interest_bits(interest@),
    {
        let status_bit = Bit::from_usize(self.status);
        let ready = Ready::from_usize(status_bit.get_by_mask(readiness_mask())).intersection(interest);
        let tick = status_bit.get_by_mask(driver_tick_mask());
        proof {
            lemma_status_fields(self.status);
        }
        ReadyEvent::new(tick as u8, ready)
    }

    /// Changes the readiness to `f` of the current one, keeping the
    /// generation; refused when `token` is of another generation, or when
    /// clearing at a tick other than the recorded one.
    pub fn set_readiness<F: Fn(Ready) -> Ready>(&mut self, token: Option<usize>, tick: Tick, f: F) -> (r:
        Result<(), ScheduleIoError>)
        requires
            forall|c: Ready| #[trigger] f.requires((c,)),
        ensures
            final(self).waiters == old(self).waiters,
            ({
                let s = old(self).status;
                let g = generation_of(s);
                let stale = token matches Some(t) && generation_of(t) != g;
                let covered = tick matches Tick::Clear(t) && tick_of(s) as u8 != t;
                &&& stale ==> r == Err::<(), ScheduleIoError>(ScheduleIoError::TokenInvalid) && final(self).status == s
                &&& !stale && covered ==> r == Err::<(), ScheduleIoError>(ScheduleIoError::Covered) && final(self).status == s
                &&& !stale && !covered ==> r is Ok && exists|c: Ready, n: Ready|
                    c@ == readiness_of(s) & ALL && #[trigger] f.ensures((c,), n) && final(self).status
                        == status_word(n@, match tick { Tick::Update(t) => t, Tick::Clear(t) => t }, g)
            }),
    {
        let current = self.status;
        let current_bit = Bit::from_usize(current);
        let current_generation = current_bit.get_by_mask(generation_mask());
        if let Some(token) = token {
            if Bit::from_usize(token).get_by_mask(generation_mask()) != current_generation {
                return Err(ScheduleIoError::TokenInvalid);
            }
        }
        let current_readiness = Ready::from_usize(current_bit.get_by_mask(readiness_mask()));
        proof {
            lemma_status_fields(current);
        }
        let new_readiness = f(current_readiness);
        let mut new_bit = Bit::from_usize(new_readiness.as_usize());
        let t = match tick {
            Tick::Update(t) => t,
            Tick::Clear(t) => t,
        };
        match tick {
            Tick::Update(t) => new_bit.set_by_mask(driver_tick_mask(), t as usize),
            Tick::Clear(t) => {
                let recorded = current_bit.get_by_mask(driver_tick_mask());
                if recorded as u8 != t {
                    return Err(ScheduleIoError::Covered);
                }
                new_bit.set_by_mask(driver_tick_mask(), t as usize);
            },
        }
        new_bit.set_by_mask(generation_mask(), current_generation);
        self.status = new_bit.as_usize();
        proof {
            let n = new_readiness@;
            assert(current_readiness@ == readiness_of(current) & ALL);
            assert(f.ensures((current_readiness,), new_readiness));
            assert(self.status == status_word(n, t, generation_of(current)));
        }
        Ok(())
    }

    /// Polls for readiness that satisfies `interest`, which is readability or
    /// writability alone: when there is none, `waker` becomes the source's
    /// reader or writer, and the poll is ready only if the source is shut
    /// down.
    pub fn poll_readiness(&mut self, waker: u64, interest: Interest) -> (r: Option<ReadyEvent>)
        requires
            old(self).wf(),
            interest@ == 1 || interest@ == 2 || readiness_of(old(self).status) & ALL & interest_bits(interest@)
                != 0,
        ensures
            final(self).wf(),
            final(self).status == old(self).status,
            final(self).waiters.list == old(self).waiters.list,
            final(self).waiters.is_shutdown == old(self).waiters.is_shutdown,
            readiness_of(old(self).status) & ALL & interest_bits(interest@) != 0 ==> {
                &&& r matches Some(e) && e.spec_tick() == tick_of(old(self).status) as u8 && e.spec_ready()@
                    == readiness_of(old(self).status) & ALL & interest_bits(interest@)
                &&& final(self).waiters.reader == old(self).waiters.reader
                &&& final(self).waiters.writer == old(self).waiters.writer
            },
            readiness_of(old(self).status) & ALL & interest_bits(interest@) == 0 ==> {
                &&& interest@ == 2 ==> final(self).waiters.writer == Some(waker) && final(self).waiters.reader
                    == old(self).waiters.reader
                &&& interest@ == 1 ==> final(self).waiters.reader == Some(waker) && final(self).waiters.writer
                    == old(self).waiters.writer
            },
            readiness_of(old(self).status) & ALL & interest_bits(interest@) == 0 ==> (r is None
                <==> !old(self).waiters.is_shutdown),
            readiness_of(old(self).status) & ALL & interest_bits(interest@) == 0 ==> (r matches Some(e)
                ==> e.spec_tick() == tick_of(old(self).status) as u8 && e.spec_ready()@ == 0),
    {
        let curr_bit = Bit::from_usize(self.status);
        let ready = Ready::from_usize(curr_bit.get_by_mask(readiness_mask())).intersection(interest);
        proof {
            lemma_status_fields(self.status);
        }
        if ready.is_empty() {
            if interest.is_writable() && !interest.is_readable() {
                self.waiters.writer = Some(waker);
            } else {
                self.waiters.reader = Some(waker);
            }
            let ready_event = self.get_readiness(interest);
            if !self.waiters.is_shutdown && ready_event.get_ready().is_empty() {
                None
            } else {
                Some(ready_event)
            }
        } else {
            let tick = curr_bit.get_by_mask(driver_tick_mask()) as u8;
            Some(ReadyEvent::new(tick, ready))
        }
    }

    /// Shuts the source down and wakes every waiter; gives back whom to wake.
    pub fn shutdown(&mut self) -> (wakers: Vec<u64>)
        requires
            old(self).wf(),
        ensures
            final(self).wf(),
            final(self).waiters.is_shutdown,
            woke(*old(self), *final(self), ALL, wakers@),
    {
        self.wake0(Ready::all(), true)
    }

    /// Clears the readiness of `ready`, but for the closed bits, if it was set
    /// at the event's tick.
    pub fn clear_readiness(&mut self, ready: ReadyEvent)
        requires
            old(self).wf(),
        ensures
            final(self).wf(),
            final(self).waiters == old(self).waiters,
            tick_of(old(self).status) as u8 != ready.spec_tick() ==> final(self).status == old(self).status,
            tick_of(old(self).status) as u8 == ready.spec_tick() ==> final(self).status == status_word(
                readiness_of(old(self).status) & ALL & !(ready.spec_ready()@ & !READ_CLOSED & !WRITE_CLOSED),
                ready.spec_tick(),
                generation_of(old(self).status),
            ),
    {
        let mask_no_closed = ready.get_ready().without(Ready::from_bit(READ_CLOSED)).without(
            Ready::from_bit(WRITE_CLOSED),
        );
        let clear = |curr: Ready| -> (n: Ready)
            ensures
                n@ == (curr@ & !(mask_no_closed@)),
            { curr.without(mask_no_closed) };
        let _ = self.set_readiness(None, Tick::Clear(ready.get_tick()), clear);
    }

    /// Wakes the waiters that `ready` satisfies; gives back whom to wake.
    pub fn wake(&mut self, ready: Ready) -> (wakers: Vec<u64>)
        requires
            old(self).wf(),
        ensures
            final(self).wf(),
            final(self).waiters.is_shutdown == old(self).waiters.is_shutdown,
            woke(*old(self), *final(self), ready@, wakers@),
            (ready@ & READABLE != 0 || ready@ & READ_CLOSED != 0) && old(self).waiters.reader is Some ==> wakers@.len()
                > 0 && wakers@[0] == old(self).waiters.reader->Some_0 && final(self).waiters.reader is None,
            !(ready@ & READABLE != 0 || ready@ & READ_CLOSED != 0) ==> final(self).waiters.reader == old(
                self,
            ).waiters.reader,
            (ready@ & WRITABLE != 0 || ready@ & WRITE_CLOSED != 0) ==> final(self).waiters.writer is None,
            !(ready@ & WRITABLE != 0 || ready@ & WRITE_CLOSED != 0) ==> final(self).waiters.writer == old(
                self,
            ).waiters.writer,
    {
        let wakers = self.wake0(ready, false);
        proof {
            lemma_wake_takes_ready_sides(*old(self), *self, ready@, wakers@);
        }
        wakers
    }

    /// Marks the source shut down if `shutdown`; takes the reader if `ready`
    /// is readable, the writer if it is writable, and every listed waiter
    /// that `ready` satisfies and that was not woken yet, marking it woken.
    /// Gives back whom to wake, in that order.
    fn wake0(&mut self, ready: Ready, shutdown: bool) -> (wakers: Vec<u64>)
        requires
            old(self).wf(),
        ensures
            final(self).wf(),
            final(self).waiters.is_shutdown == (old(self).waiters.is_shutdown || shutdown),
            woke(*old(self), *final(self), ready@, wakers@),
    {
        let mut wakers: Vec<u64> = Vec::new();
        proof {
            lemma_status_fields(ready@);
        }
        self.waiters.is_shutdown = self.waiters.is_shutdown || shutdown;
        if ready.is_readable() {
            if let Some(waker) = self.waiters.reader.take() {
                wakers.push(waker);
            }
        }
        if ready.is_writable() {
            if let Some(waker) = self.waiters.writer.take() {
                wakers.push(waker);
            }
        }
        let ghost head = wakers@;
        let ghost old_list = self.waiters.list.values();
        let n = self.waiters.list.len();
        let mut i: usize = 0;
        while i < n
            invariant
                self.waiters.list.wf(),
                n == old_list.len(),
                i <= n,
                self.waiters.list.keys() == old(self).waiters.list.keys(),
                self.waiters.list.next_key() == old(self).waiters.list.next_key(),
                self.waiters.list.values().len() == n,
                forall|j: int| 0 <= j < i ==> #[trigger] self.waiters.list.values()[j] == after_wake(old_list[j], ready@),
                forall|j: int| i <= j < n ==> #[trigger] self.waiters.list.values()[j] == old_list[j],
                wakers@ == head + woken_list(old_list, ready@, i as int),
                old_list == old(self).waiters.list.values(),
                self.waiters.reader == (if ready@ & 5 != 0 { None } else { old(self).waiters.reader }),
                self.waiters.writer == (if ready@ & 10 != 0 { None } else { old(self).waiters.writer }),
                self.waiters.is_shutdown == (old(self).waiters.is_shutdown || shutdown),
                self.status == old(self).status,
                head == woken_head(*old(self), ready@),
            decreases n - i,
        {
            let w = *self.waiters.list.get_at(i);
            if ready.satisfies(w.interest) {
                if let Some(waker) = w.waker {
                    let _ = self.waiters.list.replace_at(
                        i,
                        Waiter { waker: None, interest: w.interest, is_ready: true },
                    );
                    wakers.push(waker);
                }
            }
            proof {
                assert(woken_list(old_list, ready@, i + 1) == woken_list(old_list, ready@, i as int) + woken_one(
                    old_list[i as int],
                    ready@,
                ));
                assert(wakers@ =~= head + woken_list(old_list, ready@, i + 1));
            }
            i = i + 1;
        }
        proof {
            assert(self.waiters.list.values() =~= old_list.map_values(|w: Waiter| after_wake(w, ready@)));
            assert forall|j: int| 0 <= j < self.waiters.list.values().len() implies (#[trigger] self.waiters.list.values()[j]).is_ready
                || self.waiters.list.values()[j].waker is Some by {
                assert(old(self).waiters.list.values()[j].is_ready || old(self).waiters.list.values()[j].waker is Some);
            }
        }
        wakers
    }
}

impl Default for ScheduleIO {
    fn default() -> (s: ScheduleIO)
        ensures
            s.wf(),
            s.status == 0,
            s.waiters.list.values().len() == 0,
            s.waiters.list.next_key() == 0,
            s.waiters.reader is None,
            s.waiters.writer is None,
            !s.waiters.is_shutdown,
    {
        ScheduleIO::new()
    }
}

impl Entry for ScheduleIO {
    /// Starts the next use of the entry: the generation goes up by one,
    /// wrapping within its field, and the tick and readiness are cleared.
    fn reset(&mut self)
        ensures
            final(self).waiters == old(self).waiters,
            final(self).status == (((generation_of(old(self).status) + 1) as usize) << 24usize) & 0x7f00_0000usize,
            generation_of(final(self).status) == (generation_of(old(self).status) + 1) % 128,
            tick_of(final(self).status) == 0,
            readiness_of(final(self).status) == 0,
    {
        let status_bit = Bit::from_usize(self.status);
        let generation = status_bit.get_by_mask(generation_mask());
        let new_generation = generation.wrapping_add(1);
        let mut next = Bit::from_usize(0);
        next.set_by_mask(generation_mask(), new_generation);
        self.status = next.as_usize();
        proof {
            let s = old(self).status;
            let g = generation;
            let st = self.status;
            lemma_status_fields(s);
            assert(new_generation == g + 1);
            lemma_next_generation(g, st);
        }
    }
}

/// Where a readiness future stands.
#[derive(Debug, Clone, Copy, PartialEq, Eq, Structural)]
pub enum State {
    /// Not polled yet.
    Init,
    /// Listed among the waiters.
    Waiting,
    /// Woken, or found ready.
    Done,
}

/// How far a state is from `Done`.
pub open spec fn state_rank(s: State) -> nat {
    match s {
        State::Init => 2,
        State::Waiting => 1,
        State::Done => 0,
    }
}

/// A wait for readiness of one source that satisfies an interest.
pub struct Readiness {
    /// Where the wait stands.
    pub state: State,
    /// What it waits for.
    pub interest: Interest,
    /// Its key among the source's waiters, once listed.
    pub waiter: Option<u64>,
}

impl Readiness {
    /// A wait that has not been polled.
    pub fn new(interest: Interest) -> (r: Readiness)
        ensures
            r == (Readiness { state: State::Init, interest, waiter: None }),
    {
        Readiness { state: State::Init, interest, waiter: None }
    }

    /// Polls the wait with `waker`. A new wait is ready at once when the
    /// source has readiness that satisfies the interest, or is shut down;
    /// else it lists itself among the waiters and is pending. A listed wait
    /// is ready once woken, and otherwise records `waker` as whom to wake. A
    /// ready wait reports the readiness of its interest at the current tick.
    pub fn poll(&mut self, io: &mut ScheduleIO, waker: u64) -> (r: Option<ReadyEvent>)
        requires
            old(io).wf(),
            old(io).waiters.list.next_key() < u64::MAX,
            old(self).state == State::Waiting ==> (old(self).waiter matches Some(k) && old(io).waiters.list.keys().contains(k)),
        ensures
            final(io).wf(),
            final(io).status == old(io).status,
            final(io).waiters.reader == old(io).waiters.reader,
            final(io).waiters.writer == old(io).waiters.writer,
            final(io).waiters.is_shutdown == old(io).waiters.is_shutdown,
            final(self).interest == old(self).interest,
            final(self).state == State::Waiting ==> (final(self).waiter matches Some(k) && final(io).waiters.list.keys().contains(k)),
            r is None <==> final(self).state == State::Waiting,
            r is Some ==> final(self).state == State::Done && final(self).waiter == old(self).waiter
                && final(io).waiters.list == old(io).waiters.list,
            ({
                let s = old(io).status;
                let bits = interest_bits(old(self).interest@);
                let ready1 = readiness_of(s) & ALL & bits;
                let ready2 = (if old(io).waiters.is_shutdown { ALL } else { readiness_of(s) & ALL }) & bits;
                &&& old(self).state == State::Init && ready1 != 0 ==> (r matches Some(e) && e.spec_tick()
                    == tick_of(s) as u8 && e.spec_ready()@ == ready1)
                &&& old(self).state == State::Init && ready1 == 0 && ready2 != 0 ==> (r matches Some(e)
                    && e.spec_tick() == tick_of(s) as u8 && e.spec_ready()@ == ready2)
                &&& old(self).state == State::Init && ready1 == 0 && ready2 == 0 ==> {
                    &&& r is None
                    &&& final(self).waiter == Some(old(io).waiters.list.next_key())
                    &&& final(io).waiters.list.keys() == old(io).waiters.list.keys().push(
                        old(io).waiters.list.next_key(),
                    )
                    &&& final(io).waiters.list.values() == old(io).waiters.list.values().push(
                        Waiter { waker: Some(waker), interest: old(self).interest, is_ready: false },
                    )
                    &&& final(io).waiters.list.next_key() == old(io).waiters.list.next_key() + 1
                }
                &&& old(self).state == State::Waiting ==> {
                    let k = old(self).waiter->Some_0;
                    let w = waiter_at(old(io).waiters.list, k);
                    &&& w.is_ready ==> (r matches Some(e) && e.spec_tick() == tick_of(s) as u8
                        && e.spec_ready()@ == bits)
                    &&& !w.is_ready ==> {
                        &&& r is None
                        &&& final(self).waiter == old(self).waiter
                        &&& final(io).waiters.list.keys() == old(io).waiters.list.keys()
                        &&& final(io).waiters.list.next_key() == old(io).waiters.list.next_key()
                        &&& final(io).waiters.list.values() == old(io).waiters.list.values().update(
                            old(io).waiters.list.index_of_key(k),
                            Waiter { waker: Some(waker), interest: w.interest, is_ready: false },
                        )
                    }
                }
                &&& old(self).state == State::Done ==> (r matches Some(e) && e.spec_tick() == tick_of(s) as u8
                    && e.spec_ready()@ == bits)
            }),
    {
        let ghost old_self = *self;
        let ghost old_io_status = io.status;
        let ghost old_list = io.waiters.list;
        proof {
            old(io).waiters.list.lemma_keys_distinct();
        }
        loop
            invariant
                old_self == *old(self),
                old_io_status == old(io).status,
                old_list == old(io).waiters.list,
                io.wf(),
                io.status == old(io).status,
                io.waiters.reader == old(io).waiters.reader,
                io.waiters.writer == old(io).waiters.writer,
                io.waiters.is_shutdown == old(io).waiters.is_shutdown,
                io.waiters.list.next_key() < u64::MAX || self.state != State::Init,
                self.interest == old(self).interest,
                old(io).waiters.list.keys().no_duplicates(),
                old(io).waiters.list.keys().len() == old(io).waiters.list.values().len(),
                self.state == State::Waiting ==> (self.waiter matches Some(k) && io.waiters.list.keys().contains(k)),
                self.state == old(self).state ==> *self == *old(self) && io.waiters.list == old(io).waiters.list,
                self.state == State::Init ==> old(self).state == State::Init,
                self.state == State::Waiting ==> old(self).state != State::Done,
                self.state == State::Waiting && old(self).state == State::Init ==> {
                    &&& self.waiter == Some(old(io).waiters.list.next_key())
                    &&& io.waiters.list.keys() == old(io).waiters.list.keys().push(old(io).waiters.list.next_key())
                    &&& io.waiters.list.values() == old(io).waiters.list.values().push(
                        Waiter { waker: Some(waker), interest: old(self).interest, is_ready: false },
                    )
                    &&& io.waiters.list.next_key() == old(io).waiters.list.next_key() + 1
                    &&& (if old(io).waiters.is_shutdown { ALL } else { readiness_of(io.status) & ALL })
                        & interest_bits(self.interest@) == 0
                    &&& readiness_of(io.status) & ALL & interest_bits(self.interest@) == 0
                },
                self.state == State::Done && old(self).state != State::Done ==> old(self).state == State::Waiting && io.waiters.list == old(io).waiters.list
                    && self.waiter == old(self).waiter
                    && waiter_at(old(io).waiters.list, old(self).waiter->Some_0).is_ready,
            decreases state_rank(self.state),
        {
            proof {
                lemma_status_fields(io.status);
            }
            match self.state {
                State::Init => {
                    let status_bit = Bit::from_usize(io.status);
                    let readiness = Ready::from_usize(status_bit.get_by_mask(readiness_mask()));
                    let ready = readiness.intersection(self.interest);
                    if !ready.is_empty() {
                        let tick = status_bit.get_by_mask(driver_tick_mask()) as u8;
                        self.state = State::Done;
                        return Some(ReadyEvent::new(tick, ready));
                    }
                    let status_bit = Bit::from_usize(io.status);
                    let mut readiness = Ready::from_usize(status_bit.get_by_mask(readiness_mask()));
                    if io.waiters.is_shutdown {
                        readiness = Ready::all();
                    }
                    let ready = readiness.intersection(self.interest);
                    if !ready.is_empty() {
                        let tick = status_bit.get_by_mask(driver_tick_mask()) as u8;
                        self.state = State::Done;
                        return Some(ReadyEvent::new(tick, ready));
                    }
                    let key = io.waiters.list.add_item(
                        Waiter { waker: Some(waker), interest: self.interest, is_ready: false },
                    );
                    self.waiter = Some(key);
                    self.state = State::Waiting;
                    proof {
                        assert(io.waiters.list.keys()[io.waiters.list.keys().len() - 1] == key);
                        let vals = io.waiters.list.values();
                        assert forall|i: int| 0 <= i < vals.len() implies (#[trigger] vals[i]).is_ready || vals[i].waker is Some by {
                            if i < vals.len() - 1 {
                                assert(vals[i] == old(io).waiters.list.values()[i]);
                            }
                        }
                    }
                },
                State::Waiting => {
                    let key = match self.waiter {
                        Some(k) => k,
                        None => {
                            proof {
                                assert(false);
                            }
                            return None;
                        },
                    };
                    let i = match io.waiters.list.position(key) {
                        Some(i) => i,
                        None => {
                            proof {
                                assert(false);
                            }
                            return None;
                        },
                    };
                    let w = *io.waiters.list.get_at(i);
                    proof {
                        if old(self).state == State::Waiting {
                            assert(i as int == old(io).waiters.list.index_of_key(key));
                        } else {
                            io.waiters.list.lemma_keys_distinct();
                            let last = io.waiters.list.keys().len() - 1;
                            assert(io.waiters.list.keys()[last] == key);
                            assert(i == last);
                            assert(!w.is_ready);
                        }
                    }
                    if w.is_ready {
                        self.state = State::Done;
                    } else {
                        proof {
                            assert(io.waiters.list.values()[i as int].is_ready || io.waiters.list.values()[i as int].waker is Some);
                        }
                        let same = match w.waker {
                            Some(cur) => cur == waker,
                            None => false,
                        };
                        if !same {
                            let _ = io.waiters.list.replace_at(
                                i,
                                Waiter { waker: Some(waker), interest: w.interest, is_ready: w.is_ready },
                            );
                            proof {
                                let vals = io.waiters.list.values();
                                assert forall|j: int| 0 <= j < vals.len() implies (#[trigger] vals[j]).is_ready || vals[j].waker is Some by {
                                    if j != i {
                                        assert(vals[j] == old_list.values()[j] || old(self).state == State::Init);
                                    }
                                }
                            }
                        } else {
                            proof {
                                assert(io.waiters.list.values() =~= io.waiters.list.values().update(
                                    i as int,
                                    Waiter { waker: Some(waker), interest: w.interest, is_ready: false },
                                ));
                            }
                        }
                        return None;
                    }
                },
                State::Done => {
                    let status_bit = Bit::from_usize(io.status);
                    let tick = status_bit.get_by_mask(driver_tick_mask()) as u8;
                    return Some(ReadyEvent::new(tick, Ready::from_interest(self.interest)));
                },
            }
        }
    }

    /// Ends the wait: takes it off the source's waiters if it was listed.
    pub fn release(self, io: &mut ScheduleIO)
        requires
            old(io).wf(),
        ensures
            final(io).wf(),
            final(io).status == old(io).status,
            final(io).waiters.reader == old(io).waiters.reader,
            final(io).waiters.writer == old(io).waiters.writer,
            final(io).waiters.is_shutdown == old(io).waiters.is_shutdown,
            final(io).waiters.list.next_key() == old(io).waiters.list.next_key(),
            self.waiter is None ==> final(io).waiters.list == old(io).waiters.list,
            self.waiter matches Some(k) ==> !old(io).waiters.list.keys().contains(k) ==> final(io).waiters.list.keys()
                == old(io).waiters.list.keys() && final(io).waiters.list.values() == old(io).waiters.list.values(),
            self.waiter matches Some(k) ==> old(io).waiters.list.keys().contains(k) ==> {
                let i = old(io).waiters.list.index_of_key(k);
                &&& final(io).waiters.list.keys() == old(io).waiters.list.keys().remove(i)
                &&& final(io).waiters.list.values() == old(io).waiters.list.values().remove(i)
            },
    {
        if let Some(k) = self.waiter {
            proof {
                io.waiters.list.lemma_keys_distinct();
            }
            let removed = io.waiters.list.remove_node(k);
            proof {
                let vals = io.waiters.list.values();
                let ov = old(io).waiters.list.values();
                if old(io).waiters.list.keys().contains(k) {
                    let i = old(io).waiters.list.index_of_key(k);
                    assert(removed is Some);
                    assert(vals == ov.remove(i));
                    assert forall|j: int| 0 <= j < vals.len() implies (#[trigger] vals[j]).is_ready || vals[j].waker is Some by {
                        let oj = if j < i { j } else { j + 1 };
                        assert(vals[j] == ov[oj]);
                    }
                }
            }
        }
    }
}


/// A reset makes every token of the entry's earlier use stale: the
/// generation after a reset (`Entry::reset`) differs from the one before, so
/// `set_readiness` refuses a token that matched the generation before.
pub proof fn lemma_reset_invalidates_tokens(s: usize, token: usize)
    requires
        generation_of(token) == generation_of(s),
    ensures
        (generation_of(s) + 1) % 128 != generation_of(token),
{
    lemma_status_fields(s);
}

} // verus!
