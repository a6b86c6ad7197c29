//! Fixed-size, zero-initialised byte pages with bounds-checked access.

use vstd::prelude::*;

verus! {

/// Why a page could not be allocated.
#[derive(Debug)]
pub enum PageAllocationError {
    /// The requested size is zero or too large to describe an allocation.
    LayoutError,
    /// The allocator could not provide the memory.
    MemoryAllocationError,
}

/// An owned block of bytes whose length is fixed when it is allocated.
pub struct Page {
    buffer: Vec<u8>,
}

/// The largest page size that can be allocated: sizes are rounded up to a
/// multiple of eight bytes and must still fit in an `isize`.
pub open spec fn max_page_size() -> int {
    isize::MAX - 7
}

/// Whether a page of `size` bytes can be described at all.
pub open spec fn valid_page_size(size: int) -> bool {
    0 < size <= max_page_size()
}

/// `len` zero bytes.
pub open spec fn zeros(len: nat) -> Seq<u8> {
    Seq::new(len, |i: int| 0u8)
}

/// `base` with the bytes of `src` laid over it from position `at` on.
pub open spec fn overwrite(base: Seq<u8>, at: int, src: Seq<u8>) -> Seq<u8> {
    Seq::new(
        base.len(),
        |i: int|
            if at <= i < at + src.len() {
                src[i - at]
            } else {
                base[i]
            },
    )
}

/// What is written can be read back: the bytes laid over a sequence are
/// the bytes found where they were laid, and the sequence keeps its length.
pub proof fn lemma_overwritten_is_read(base: Seq<u8>, at: int, src: Seq<u8>)
    requires
        0 <= at,
        at + src.len() <= base.len(),
    ensures
        overwrite(base, at, src).len() == base.len(),
        overwrite(base, at, src).subrange(at, at + src.len()) == src,
{
}

impl View for Page {
    type V = Seq<u8>;

    closed spec fn view(&self) -> Seq<u8> {
        self.buffer@
    }
}

impl Page {
    /// Allocates a page of `size` zero bytes.
    ///
    /// A size of zero, or one beyond [`max_page_size`], is refused with
    /// `LayoutError`. For any other size the only possible failure is
    /// `MemoryAllocationError`, when the allocator refuses the request.
    pub fn alloc_zeroed(size: usize) -> (res: Result<Page, PageAllocationError>)
        ensures
            !valid_page_size(size as int) ==> res matches Err(PageAllocationError::LayoutError),
            valid_page_size(size as int) ==> match res {
                Ok(page) => page@ == zeros(size as nat),
                Err(e) => e is MemoryAllocationError,
            },
    {
        if size == 0 || size > (isize::MAX as usize) - 7 {
            return Err(PageAllocationError::LayoutError);
        }
        let mut buffer: Vec<u8> = Vec::new();
        let reserved = buffer.try_reserve(size).is_ok();
        Page::zero_filled(buffer, size, reserved)
    }

    /// Completes an allocation once the allocator has answered: with the
    /// memory reserved, `buffer` is filled with `size` zero bytes and becomes
    /// the page; without it, the allocation fails.
    pub fn zero_filled(buffer: Vec<u8>, size: usize, reserved: bool) -> (res: Result<
        Page,
        PageAllocationError,
    >)
        requires
            buffer@.len() == 0,
        ensures
            reserved ==> (res matches Ok(page) && page@ == zeros(size as nat)),
            !reserved ==> res matches Err(PageAllocationError::MemoryAllocationError),
    {
        if !reserved {
            return Err(PageAllocationError::MemoryAllocationError);
        }
        let mut buffer = buffer;
        let mut filled: usize = 0;
        while filled < size
            invariant
                filled <= size,
                buffer@ == zeros(filled as nat),
            decreases size - filled,
        {
            buffer.push(0u8);
            filled = filled + 1;
        }
        Ok(Page { buffer })
    }

    /// The number of bytes in the page.
    pub fn size(&self) -> (n: usize)
        ensures
            n == self@.len(),
    {
        self.buffer.len()
    }

    /// Copies `src` into the page, starting at byte `loc`. The bytes outside
    /// the written range, and the page's size, stay as they were.
    pub fn copy_from_slice(&mut self, loc: usize, src: &[u8])
        requires
            loc + src@.len() <= old(self)@.len(),
        ensures
            final(self)@ == overwrite(old(self)@, loc as int, src@),
    {
        let mut done: usize = 0;
        while done < src.len()
            invariant
                done <= src@.len(),
                loc + src@.len() <= self.buffer.len(),
                self.buffer@ == overwrite(old(self).buffer@, loc as int, src@.subrange(0, done as int)),
            decreases src@.len() - done,
        {
            self.buffer.set(loc + done, src[done]);
            done = done + 1;
        }
        assert(src@.subrange(0, done as int) == src@);
    }

    /// Returns a copy of the `count` bytes that start at byte `loc`, or `None`
    /// when `count` is zero or the range reaches past the end of the page.
    pub fn read_from_index(&self, loc: usize, count: usize) -> (res: Option<Vec<u8>>)
        ensures
            res is Some <==> 0 < count && loc + count <= self@.len(),
            res matches Some(bytes) ==> bytes@ == self@.subrange(loc as int, loc + count),
    {
        if count == 0 {
            return None;
        }
        if loc > self.buffer.len() || count > self.buffer.len() - loc {
            return None;
        }
        let mut output: Vec<u8> = Vec::new();
        let mut done: usize = 0;
        while done < count
            invariant
                done <= count,
                loc + count <= self.buffer.len(),
                output@ == self.buffer@.subrange(loc as int, loc + done),
            decreases count - done,
        {
            output.push(self.buffer[loc + done]);
            done = done + 1;
        }
        Some(output)
    }
}

} // verus!
