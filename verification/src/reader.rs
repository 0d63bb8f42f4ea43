//! Reading fields off the front of a byte string, every length checked before use.

use vstd::prelude::*;
use vstd::slice::*;
use crate::bytes;
use crate::clipboard::{ClipboardError, ErrorView};

verus! {

/// Why `n` bytes cannot be read at `pos` out of `len`, if they cannot.
pub open spec fn read_fault(len: nat, pos: nat, n: nat) -> Option<ErrorView> {
    if pos + n > usize::MAX {
        Some(ErrorView::Decode("offset overflow"@))
    } else if pos + n > len {
        Some(ErrorView::Decode("truncated"@))
    } else {
        None
    }
}

/// A byte string and how much of it has been read.
pub struct ByteReader<'a> {
    buf: &'a [u8],
    pos: usize,
}

impl<'a> ByteReader<'a> {
    /// The byte string being read.
    pub closed spec fn data(&self) -> Seq<u8> {
        self.buf@
    }

    /// How many bytes have been read.
    pub closed spec fn at(&self) -> nat {
        self.pos as nat
    }

    /// What has been read lies within the byte string.
    pub open spec fn wf(&self) -> bool {
        &&& self.at() <= self.data().len()
        &&& self.data().len() <= usize::MAX
    }

    /// The `n` bytes that come next.
    pub open spec fn next(&self, n: nat) -> Seq<u8> {
        self.data().subrange(self.at() as int, (self.at() + n) as int)
    }

    /// How a read of `n` bytes ends: it moves past them, or it stays and says why.
    pub open spec fn reads(before: &Self, after: &Self, n: nat, error: Option<ErrorView>) -> bool {
        &&& after.wf()
        &&& after.data() == before.data()
        &&& error == read_fault(before.data().len(), before.at(), n)
        &&& after.at() == if error is None {
            before.at() + n
        } else {
            before.at()
        }
    }

    /// A reader at the start of `buf`.
    pub fn new(buf: &'a [u8]) -> (r: Self)
        ensures
            r.wf(),
            r.data() == buf@,
            r.at() == 0,
    {
        assert(buf.len() <= usize::MAX);
        ByteReader { buf, pos: 0 }
    }

    /// The next `n` bytes, in place.
    pub fn read_array(&mut self, n: usize) -> (r: Result<&'a [u8], ClipboardError>)
        requires
            old(self).wf(),
        ensures
            match r {
                Ok(b) => Self::reads(old(self), final(self), n as nat, None) && b@ == old(self).next(
                    n as nat,
                ),
                Err(e) => Self::reads(old(self), final(self), n as nat, Some(e@)),
            },
    {
        let end: usize = match self.pos.checked_add(n) {
            Some(end) => end,
            None => {
                return Err(ClipboardError::Decode("offset overflow"));
            },
        };
        if end > self.buf.len() {
            return Err(ClipboardError::Decode("truncated"));
        }
        let out = slice_subrange(self.buf, self.pos, end);
        self.pos = end;
        Ok(out)
    }

    /// The next byte.
    pub fn read_u8(&mut self) -> (r: Result<u8, ClipboardError>)
        requires
            old(self).wf(),
        ensures
            match r {
                Ok(x) => Self::reads(old(self), final(self), 1, None) && x == old(self).next(1)[0],
                Err(e) => Self::reads(old(self), final(self), 1, Some(e@)),
            },
    {
        match self.read_array(1) {
            Ok(b) => Ok(b[0]),
            Err(e) => Err(e),
        }
    }

    /// The number in the next two bytes.
    pub fn read_u16(&mut self) -> (r: Result<u16, ClipboardError>)
        requires
            old(self).wf(),
        ensures
            match r {
                Ok(x) => Self::reads(old(self), final(self), 2, None) && x == bytes::le_value(
                    old(self).next(2),
                ),
                Err(e) => Self::reads(old(self), final(self), 2, Some(e@)),
            },
    {
        match self.read_array(2) {
            Ok(b) => Ok(bytes::u16_from_le(b)),
            Err(e) => Err(e),
        }
    }

    /// The number in the next four bytes.
    pub fn read_u32(&mut self) -> (r: Result<u32, ClipboardError>)
        requires
            old(self).wf(),
        ensures
            match r {
                Ok(x) => Self::reads(old(self), final(self), 4, None) && x == bytes::le_value(
                    old(self).next(4),
                ),
                Err(e) => Self::reads(old(self), final(self), 4, Some(e@)),
            },
    {
        match self.read_array(4) {
            Ok(b) => Ok(bytes::u32_from_le(b)),
            Err(e) => Err(e),
        }
    }

    /// The number in the next eight bytes.
    pub fn read_u64(&mut self) -> (r: Result<u64, ClipboardError>)
        requires
            old(self).wf(),
        ensures
            match r {
                Ok(x) => Self::reads(old(self), final(self), 8, None) && x == bytes::le_value(
                    old(self).next(8),
                ),
                Err(e) => Self::reads(old(self), final(self), 8, Some(e@)),
            },
    {
        match self.read_array(8) {
            Ok(b) => Ok(bytes::u64_from_le(b)),
            Err(e) => Err(e),
        }
    }

    /// The next `n` bytes, copied out.
    pub fn take_bytes(&mut self, n: usize) -> (r: Result<Vec<u8>, ClipboardError>)
        requires
            old(self).wf(),
        ensures
            match r {
                Ok(b) => Self::reads(old(self), final(self), n as nat, None) && b@ == old(self).next(
                    n as nat,
                ),
                Err(e) => Self::reads(old(self), final(self), n as nat, Some(e@)),
            },
    {
        match self.read_array(n) {
            Ok(b) => Ok(slice_to_vec(b)),
            Err(e) => Err(e),
        }
    }
}

/// A read gives the bytes in their order and leaves out none: reading `n` bytes and then `m` is
/// reading `n + m` at once.
pub proof fn law_reads_follow_each_other(a: &ByteReader, b: &ByteReader, n: nat, m: nat)
    requires
        a.wf(),
        ByteReader::reads(a, b, n, None),
        b.at() + m <= b.data().len(),
    ensures
        b.at() == a.at() + n,
        a.next(n) + b.next(m) == a.next(n + m),
        a.next(n) == a.data().skip(a.at() as int).take(n as int),
{
    assert(a.next(n) + b.next(m) =~= a.next(n + m));
    assert(a.next(n) =~= a.data().skip(a.at() as int).take(n as int));
}

/// A read is refused exactly if it asks for more than is left, and then nothing is read.
pub proof fn law_read_needs_what_it_asks_for(
    a: &ByteReader,
    b: &ByteReader,
    n: nat,
    error: Option<ErrorView>,
)
    requires
        a.wf(),
        ByteReader::reads(a, b, n, error),
    ensures
        error is None <==> n <= a.data().len() - a.at(),
        error is Some ==> b.at() == a.at(),
        error matches Some(e) ==> e == (if a.at() + n > usize::MAX {
            ErrorView::Decode("offset overflow"@)
        } else {
            ErrorView::Decode("truncated"@)
        }),
        b.data() == a.data(),
{
}

} // verus!
