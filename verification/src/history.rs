use vstd::prelude::*;
use ringbuffer::AllocRingBuffer;
use ringbuffer::RingBuffer;

verus! {

/// A drawn line segment: the new pen position `(x, y)`, the previous one
/// `(oldx, oldy)` (each coordinate as the bit pattern of a double), and the
/// colour of the client that drew it.
#[derive(Clone, Copy, Debug, PartialEq, Eq, Structural)]
pub struct Line(pub u64, pub u64, pub u64, pub u64, pub u8);

#[verifier::external_type_specification]
#[verifier::external_body]
#[verifier::reject_recursive_types(T)]
pub struct ExAllocRingBuffer<T>(AllocRingBuffer<T>);

/// The lines held by a ring buffer, oldest first.
pub uninterp spec fn ring_lines(r: AllocRingBuffer<Line>) -> Seq<Line>;

/// The capacity a ring buffer was made with.
pub uninterp spec fn ring_capacity(r: AllocRingBuffer<Line>) -> nat;

/// `ringbuffer::AllocRingBuffer::new`: an empty buffer holding at most
/// `capacity` items.  The crate panics on a zero capacity.
#[verifier::external_body]
fn ring_new(capacity: usize) -> (r: AllocRingBuffer<Line>)
    requires
        capacity > 0,
    ensures
        ring_lines(r) == Seq::<Line>::empty(),
        ring_capacity(r) == capacity as nat,
{
    AllocRingBuffer::new(capacity)
}

/// `RingBuffer::enqueue` on an `AllocRingBuffer` (its result, the dropped
/// item, is discarded): the item goes to the back; when the buffer is full, the oldest item is
/// dropped first.  The capacity does not change.
#[verifier::external_body]
fn ring_push(r: &mut AllocRingBuffer<Line>, line: Line)
    requires
        ring_lines(*old(r)).len() <= ring_capacity(*old(r)),
    ensures
        ring_capacity(*final(r)) == ring_capacity(*old(r)),
        ring_lines(*final(r)) == (if ring_lines(*old(r)).len() < ring_capacity(*old(r)) {
            ring_lines(*old(r)).push(line)
        } else {
            ring_lines(*old(r)).drop_first().push(line)
        }),
{
    let _ = r.enqueue(line);
}

/// `RingBuffer::to_vec`: the items, oldest first (each a copy).
#[verifier::external_body]
fn ring_to_vec(r: &AllocRingBuffer<Line>) -> (v: Vec<Line>)
    ensures
        v@ == ring_lines(*r),
{
    r.to_vec()
}

/// The lines kept after pushing `line` onto `lines` with room for `cap`.
pub open spec fn pushed(lines: Seq<Line>, cap: nat, line: Line) -> Seq<Line> {
    if lines.len() < cap {
        lines.push(line)
    } else {
        lines.drop_first().push(line)
    }
}

/// The lines kept after pushing each of `ls` in turn.
pub open spec fn pushed_all(lines: Seq<Line>, cap: nat, ls: Seq<Line>) -> Seq<Line>
    decreases ls.len(),
{
    if ls.len() == 0 {
        lines
    } else {
        pushed(pushed_all(lines, cap, ls.drop_last()), cap, ls.last())
    }
}

/// The last `cap` items of `s` (all of them when there are fewer).
pub open spec fn latest(s: Seq<Line>, cap: nat) -> Seq<Line> {
    if s.len() <= cap {
        s
    } else {
        s.skip(s.len() - cap)
    }
}

/// The drawing history: the most recent lines, oldest first, at most
/// `capacity` of them.
pub struct History {
    ring: AllocRingBuffer<Line>,
}

impl View for History {
    type V = Seq<Line>;

    closed spec fn view(&self) -> Seq<Line> {
        ring_lines(self.ring)
    }
}

impl History {
    /// Well-formed: the capacity is positive and the lines fit in it.
    pub closed spec fn wf(&self) -> bool {
        &&& ring_capacity(self.ring) > 0
        &&& ring_lines(self.ring).len() <= ring_capacity(self.ring)
    }

    /// How many lines the history keeps.
    pub closed spec fn capacity(&self) -> nat {
        ring_capacity(self.ring)
    }

    /// An empty history keeping at most `capacity` lines.
    pub fn with_capacity(capacity: usize) -> (h: History)
        requires
            capacity > 0,
        ensures
            h.wf(),
            h@ == Seq::<Line>::empty(),
            h.capacity() == capacity as nat,
    {
        History { ring: ring_new(capacity) }
    }

    /// A well-formed history never holds more lines than its capacity,
    /// which is never zero.
    pub proof fn lemma_bounded(&self)
        requires
            self.wf(),
        ensures
            self@.len() <= self.capacity(),
            self.capacity() > 0,
    {
    }

    /// Records a line; when the history is full the oldest line is dropped.
    pub fn push(&mut self, line: Line)
        requires
            old(self).wf(),
        ensures
            final(self).wf(),
            final(self).capacity() == old(self).capacity(),
            final(self)@ == pushed(old(self)@, old(self).capacity(), line),
    {
        ring_push(&mut self.ring, line);
    }

    /// The lines, oldest first.
    pub fn to_vec(&self) -> (v: Vec<Line>)
        ensures
            v@ == self@,
    {
        ring_to_vec(&self.ring)
    }
}

/// A history keeps exactly the latest lines: starting from lines that fit,
/// pushing any sequence of lines leaves the last `cap` of all of them, in
/// the order they were pushed.
pub proof fn lemma_history_keeps_latest(lines: Seq<Line>, cap: nat, ls: Seq<Line>)
    requires
        cap > 0,
        lines.len() <= cap,
    ensures
        pushed_all(lines, cap, ls) == latest(lines + ls, cap),
    decreases ls.len(),
{
    if ls.len() > 0 {
        let init = ls.drop_last();
        lemma_history_keeps_latest(lines, cap, init);
        let prev = latest(lines + init, cap);
        let all = lines + ls;
        assert(all == (lines + init).push(ls.last()));
        let a = lines + init;
        if a.len() < cap {
            assert(latest(all, cap) =~= a.push(ls.last()));
        } else if a.len() == cap {
            assert(prev == a);
            assert(latest(all, cap) =~= a.drop_first().push(ls.last()));
        } else {
            assert(prev =~= a.skip(a.len() - cap));
            assert(latest(all, cap) =~= prev.drop_first().push(ls.last()));
        }
    }
}

} // verus!
