//! The data stack of the textual language.

use crate::vm::interpreter;
use vstd::prelude::*;

verus! {

/// The number of bytes that a stack can hold.
pub const CAPACITY: usize = 1000;

/// The data stack of the language: a fixed store of bytes, of which the
/// first `size` are in use, and a frame that starts at `offset`.
pub struct Stack {
    bytes: Vec<u8>,
    offset: usize,
    size: usize,
}

/// A stack as it is, mathematically: the bytes of the store, where the frame
/// starts, and how many bytes are in use.
pub struct StackView {
    pub bytes: Seq<u8>,
    pub offset: int,
    pub size: int,
}

impl StackView {
    /// The number of bytes in the frame.
    pub open spec fn frame_size(self) -> int {
        self.size - self.offset
    }

    /// Whether `raw_offset` names an offset into the frame.
    pub open spec fn names_offset(self, raw_offset: i32) -> bool {
        self.offset <= self.size && (raw_offset < 0 ==> 0 <= self.frame_size() + raw_offset
            && self.frame_size() <= i32::MAX)
    }

    /// The offset into the frame that `raw_offset` names: itself, or counted
    /// back from the end of the frame where it is negative.
    pub open spec fn frame_offset(self, raw_offset: i32) -> int {
        if raw_offset >= 0 {
            raw_offset as int
        } else {
            self.frame_size() + raw_offset
        }
    }

    /// Whether the bytes in use reach from `offset` bytes into the frame on.
    pub open spec fn holds(self, offset: int) -> bool {
        0 <= self.offset + offset <= self.size <= self.bytes.len()
    }

    /// The bytes in use from `offset` bytes into the frame on.
    pub open spec fn slice(self, offset: int) -> Seq<u8> {
        self.bytes.subrange(self.offset + offset, self.size)
    }

    /// The stack with `bytes` written from `offset` bytes into the frame on.
    pub open spec fn written(self, offset: int, bytes: Seq<u8>) -> StackView {
        StackView {
            bytes: interpreter::splice(self.bytes, self.offset + offset, bytes),
            offset: self.offset,
            size: self.size,
        }
    }
}

impl View for Stack {
    type V = StackView;

    closed spec fn view(&self) -> StackView {
        StackView { bytes: self.bytes@, offset: self.offset as int, size: self.size as int }
    }
}

impl Stack {
    /// What the accessors give is what the stack is.
    pub broadcast proof fn lemma_view(&self)
        ensures
            #![trigger self@]
            self@.bytes == self.store(),
            self@.offset == self.start(),
            self@.size == self.used(),
            self.well_formed() ==> self@.bytes.len() == CAPACITY,
    {
    }

    /// The bytes of the store.
    pub closed spec fn store(&self) -> Seq<u8> {
        self.bytes@
    }

    /// Where the frame starts.
    pub closed spec fn start(&self) -> usize {
        self.offset
    }

    /// The number of bytes in use.
    pub closed spec fn used(&self) -> usize {
        self.size
    }

    /// Where the frame starts.
    pub fn offset(&self) -> (offset: usize)
        ensures
            offset == self.start(),
    {
        self.offset
    }

    /// The number of bytes in use.
    pub fn size(&self) -> (size: usize)
        ensures
            size == self.used(),
    {
        self.size
    }

    /// The store has its full length.
    pub closed spec fn well_formed(&self) -> bool {
        self.bytes@.len() == CAPACITY
    }

    pub fn create() -> (stack: Stack)
        ensures
            stack.well_formed(),
            stack.start() == 0,
            stack.used() == 0,
            stack.store() == Seq::new(CAPACITY as nat, |at: int| 0u8),
    {
        let mut bytes: Vec<u8> = Vec::new();
        let mut at: usize = 0;
        while at < CAPACITY
            invariant
                at <= CAPACITY,
                bytes@ == Seq::new(at as nat, |at: int| 0u8),
            decreases CAPACITY - at,
        {
            bytes.push(0);
            at += 1;
            assert(bytes@ =~= Seq::new(at as nat, |at: int| 0u8));
        }
        Stack { bytes, offset: 0, size: 0 }
    }

    /// Writes `bytes` at the start of the frame and counts them as used.
    pub fn push(&mut self, bytes: &[u8])
        requires
            old(self).well_formed(),
            old(self).start() + bytes@.len() <= CAPACITY,
            old(self).used() + bytes@.len() <= usize::MAX,
        ensures
            final(self).well_formed(),
            final(self).store() == interpreter::splice(
                old(self).store(),
                old(self).start() as int,
                bytes@,
            ),
            final(self).start() == old(self).start(),
            final(self).used() == old(self).used() + bytes@.len(),
    {
        let count: usize = bytes.len();
        let mut at: usize = 0;
        while at < count
            invariant
                at <= count,
                count == bytes@.len(),
                self.offset == old(self).offset,
                self.size == old(self).size,
                self.offset + count <= CAPACITY,
                self.bytes@.len() == CAPACITY,
                old(self).bytes@.len() == CAPACITY,
                self.bytes@ == interpreter::splice(
                    old(self).bytes@,
                    self.offset as int,
                    bytes@.take(at as int),
                ),
            decreases count - at,
        {
            self.bytes[self.offset + at] = bytes[at];
            at += 1;
            assert(self.bytes@ =~= interpreter::splice(
                old(self).bytes@,
                self.offset as int,
                bytes@.take(at as int),
            ));
        }
        assert(bytes@.take(count as int) =~= bytes@);
        self.size += count;
    }

    /// Counts `size` more bytes as used.
    pub fn extend(&mut self, size: usize)
        requires
            old(self).used() + size <= usize::MAX,
        ensures
            final(self).used() == old(self).used() + size,
            final(self).start() == old(self).start(),
            final(self).store() == old(self).store(),
            final(self).well_formed() == old(self).well_formed(),
    {
        self.size += size;
    }

    /// Counts `size` bytes fewer as used.
    pub fn shrink(&mut self, size: usize)
        requires
            size <= old(self).used(),
        ensures
            final(self).used() == old(self).used() - size,
            final(self).start() == old(self).start(),
            final(self).store() == old(self).store(),
            final(self).well_formed() == old(self).well_formed(),
    {
        self.size -= size;
    }

    /// The bytes in use from `offset` bytes into the frame on.
    pub fn as_slice(&self, offset: usize) -> (slice: &[u8])
        requires
            self.well_formed(),
            self.start() + offset <= self.used() <= CAPACITY,
        ensures
            slice@ == self.store().subrange(self.start() + offset, self.used() as int),
    {
        vstd::slice::slice_subrange(self.bytes.as_slice(), self.offset + offset, self.size)
    }

    /// The bytes in use from `offset` bytes into the frame on, for writing.
    pub fn as_slice_mut(&mut self, offset: usize) -> (slice: &mut [u8])
        requires
            old(self).well_formed(),
            old(self).start() + offset <= old(self).used() <= CAPACITY,
        ensures
            slice@ == old(self).store().subrange(
                old(self).start() + offset,
                old(self).used() as int,
            ),
            final(self).start() == old(self).start(),
            final(self).used() == old(self).used(),
            final(self).well_formed(),
            final(self).store() == old(self).store().take(old(self).start() + offset)
                + final(slice)@ + old(self).store().skip(old(self).used() as int),
    {
        let from: usize = self.offset + offset;
        let to: usize = self.size;
        interpreter::window(self.bytes.as_mut_slice(), from, to)
    }

    /// The offset into the frame that `raw_offset` names: itself, or counted
    /// back from the end of the frame where it is negative.
    pub fn frame_offset(&self, raw_offset: i32) -> (offset: usize)
        requires
            self.start() <= self.used(),
            raw_offset < 0 ==> 0 <= (self.used() - self.start()) + raw_offset,
            raw_offset < 0 ==> self.used() - self.start() <= i32::MAX,
        ensures
            offset == if raw_offset >= 0 {
                raw_offset as int
            } else {
                (self.used() - self.start()) + raw_offset
            },
    {
        if raw_offset >= 0 {
            raw_offset as usize
        } else {
            ((self.size - self.offset) as i32 + raw_offset) as usize
        }
    }

    /// Checks nothing at run time: the frame must hold `size` bytes.
    pub fn check_frame_size(&self, size: usize)
        requires
            self.start() <= self.used(),
            size == self.used() - self.start(),
    {
    }

    /// Moves the start of the frame `offset` bytes on.
    pub fn move_forward(&mut self, offset: usize)
        requires
            old(self).start() + offset <= usize::MAX,
        ensures
            final(self).start() == old(self).start() + offset,
            final(self).used() == old(self).used(),
            final(self).store() == old(self).store(),
            final(self).well_formed() == old(self).well_formed(),
    {
        self.offset += offset;
    }

    /// Moves the start of the frame `offset` bytes back.
    pub fn move_back(&mut self, offset: usize)
        requires
            offset <= old(self).start(),
        ensures
            final(self).start() == old(self).start() - offset,
            final(self).used() == old(self).used(),
            final(self).store() == old(self).store(),
            final(self).well_formed() == old(self).well_formed(),
    {
        self.offset -= offset;
    }
}

} // verus!
