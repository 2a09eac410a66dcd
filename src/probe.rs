//! A probe that records the field at one cell into a circular buffer.
//!
//! The probe is generic over the sample type; the solver records its
//! field values through it.

use vstd::prelude::*;
use crate::lattice::flat_index;

verus! {

/// The abstract state of a probe.
pub struct ProbeModel<T> {
    pub x: nat,
    pub y: nat,
    /// The circular buffer; its length is the capacity.
    pub samples: Seq<T>,
    /// Slot that the next sample goes to.
    pub write_pos: nat,
}

/// A field probe at cell `(x, y)` with a circular sample buffer.
pub struct Probe<T> {
    x: usize,
    y: usize,
    buffer: Vec<T>,
    write_pos: usize,
    capacity: usize,
}

impl<T> View for Probe<T> {
    type V = ProbeModel<T>;

    closed spec fn view(&self) -> ProbeModel<T> {
        ProbeModel {
            x: self.x as nat,
            y: self.y as nat,
            samples: self.buffer@,
            write_pos: self.write_pos as nat,
        }
    }
}

/// The slot after `pos` in a buffer of `capacity` slots.
pub open spec fn next_slot(pos: nat, capacity: nat) -> nat {
    if pos + 1 == capacity { 0 } else { pos + 1 }
}

impl<T: Copy> Probe<T> {
    /// The write position addresses the buffer, or is zero when it is empty.
    pub closed spec fn wf(&self) -> bool {
        &&& self.buffer@.len() == self.capacity
        &&& (self.capacity == 0 ==> self.write_pos == 0)
        &&& (self.capacity > 0 ==> self.write_pos < self.capacity)
    }

    /// A probe at `(x, y)` whose `buffer_size` slots all hold `blank`.
    pub fn new(x: usize, y: usize, buffer_size: usize, blank: T) -> (r: Probe<T>)
        ensures
            r.wf(),
            r@.x == x,
            r@.y == y,
            r@.samples == Seq::new(buffer_size as nat, |i: int| blank),
            r@.write_pos == 0,
    {
        let mut buffer: Vec<T> = Vec::new();
        let mut i: usize = 0;
        while i < buffer_size
            invariant
                i <= buffer_size,
                buffer@ == Seq::new(i as nat, |k: int| blank),
            decreases buffer_size - i,
        {
            buffer.push(blank);
            i = i + 1;
            assert(buffer@ =~= Seq::new(i as nat, |k: int| blank));
        }
        Probe { x, y, buffer, write_pos: 0, capacity: buffer_size }
    }

    pub fn get_x(&self) -> (r: usize)
        ensures
            r == self@.x,
    {
        self.x
    }

    pub fn get_y(&self) -> (r: usize)
        ensures
            r == self@.y,
    {
        self.y
    }

    /// Number of slots of the buffer.
    pub fn get_buffer_size(&self) -> (r: usize)
        requires
            self.wf(),
        ensures
            r == self@.samples.len(),
    {
        self.capacity
    }

    /// Slot that the next sample goes to.
    pub fn get_write_pos(&self) -> (r: usize)
        ensures
            r == self@.write_pos,
    {
        self.write_pos
    }

    /// The buffer, slot by slot; the oldest sample sits at the write
    /// position once the buffer has wrapped.
    pub fn samples(&self) -> (r: &[T])
        ensures
            r@ == self@.samples,
    {
        self.buffer.as_slice()
    }

    /// Fills every slot with `blank` and starts again at slot zero.
    pub fn clear(&mut self, blank: T)
        requires
            old(self).wf(),
        ensures
            final(self).wf(),
            final(self)@ == (ProbeModel {
                samples: Seq::new(old(self)@.samples.len(), |i: int| blank),
                write_pos: 0,
                ..old(self)@
            }),
    {
        let n = self.buffer.len();
        let mut i: usize = 0;
        while i < n
            invariant
                n == self.buffer@.len(),
                n == old(self).buffer@.len(),
                self.x == old(self).x,
                self.y == old(self).y,
                self.capacity == old(self).capacity,
                self.write_pos == old(self).write_pos,
                i <= n,
                forall|k: int| 0 <= k < i ==> self.buffer@[k] == blank,
            decreases n - i,
        {
            self.buffer.set(i, blank);
            i = i + 1;
        }
        self.write_pos = 0;
        assert(self.buffer@ =~= Seq::new(old(self)@.samples.len(), |i: int| blank));
    }

    /// Moves the probe to `(x, y)` and clears its buffer with `blank`.
    pub fn set_position(&mut self, x: usize, y: usize, blank: T)
        requires
            old(self).wf(),
        ensures
            final(self).wf(),
            final(self)@ == (ProbeModel {
                x: x as nat,
                y: y as nat,
                samples: Seq::new(old(self)@.samples.len(), |i: int| blank),
                write_pos: 0,
            }),
    {
        self.x = x;
        self.y = y;
        self.clear(blank);
    }

    /// Records the value of the probed cell of a `width`-wide row-major
    /// field. Nothing happens when the cell lies past the end of the field
    /// or the buffer has no slots.
    pub fn record(&mut self, field: &[T], width: usize)
        requires
            old(self).wf(),
        ensures
            final(self).wf(),
            final(self)@.x == old(self)@.x,
            final(self)@.y == old(self)@.y,
            ({
                let k = flat_index(width as nat, old(self)@.x, old(self)@.y);
                let cap = old(self)@.samples.len();
                if k < field@.len() && cap > 0 {
                    &&& final(self)@.samples == old(self)@.samples.update(
                        old(self)@.write_pos as int,
                        field@[k as int],
                    )
                    &&& final(self)@.write_pos == next_slot(old(self)@.write_pos, cap)
                } else {
                    final(self)@ == old(self)@
                }
            }),
    {
        proof {
            let (a, b) = (self.y as int, width as int);
            assert(0 <= a * b <= 0xffff_ffff_ffff_ffff * 0xffff_ffff_ffff_ffff) by (nonlinear_arith)
                requires
                    0 <= a <= 0xffff_ffff_ffff_ffff,
                    0 <= b <= 0xffff_ffff_ffff_ffff,
            ;
        }
        let cell = (self.y as u128) * (width as u128) + (self.x as u128);
        if cell < field.len() as u128 && self.capacity > 0 {
            let v = field[cell as usize];
            self.buffer.set(self.write_pos, v);
            self.write_pos = if self.write_pos + 1 == self.capacity {
                0
            } else {
                self.write_pos + 1
            };
        }
    }

    /// The most recent sample: the slot before the write position.
    pub fn get_current_value(&self) -> (r: T)
        requires
            self.wf(),
            self@.samples.len() > 0,
        ensures
            r == self@.samples[if self@.write_pos == 0 {
                self@.samples.len() - 1
            } else {
                self@.write_pos - 1
            }],
    {
        let prev = if self.write_pos == 0 { self.capacity - 1 } else { self.write_pos - 1 };
        self.buffer[prev]
    }
}

} // verus!
