//! The receiving end of a clipboard transfer: chunks in order, put together again.

use vstd::prelude::*;
use vstd::string::*;
use crate::bytes;
use crate::clipboard::{
    ClipboardError, ErrorView, MAX_CHUNK_LEN, MAX_TOTAL_LEN, SUPPORTED_MIME,
};
use crate::text;

verus! {

/// A transfer under way: what was announced, and what has arrived.
#[verifier::ext_equal]
pub struct TransferView {
    pub id: u32,
    pub total_len: u64,
    pub next_seq: u32,
    pub received: Seq<u8>,
}

/// What an assembler holds: the transfer under way, if there is one.
pub type AssemblerView = Option<TransferView>;

/// What every assembler keeps: a transfer announces no more than [`MAX_TOTAL_LEN`] bytes, and no
/// more has arrived than was announced.
pub open spec fn bounded(v: AssemblerView) -> bool {
    v matches Some(t) ==> t.total_len <= MAX_TOTAL_LEN && t.received.len() <= t.total_len
}

/// The bytes that have arrived of the transfer under way, none if there is no transfer.
pub open spec fn arrived(v: AssemblerView) -> Seq<u8> {
    match v {
        Some(t) => t.received,
        None => Seq::empty(),
    }
}

/// How an offer ends: a transfer begins, or the offer is refused.
pub open spec fn offered(
    v: AssemblerView,
    transfer_id: u32,
    mime: Seq<char>,
    total_len: u64,
) -> Result<TransferView, ErrorView> {
    if v is Some {
        Err(ErrorView::Protocol("transfer already in progress"@))
    } else if total_len > MAX_TOTAL_LEN {
        Err(ErrorView::Oversize)
    } else if mime != SUPPORTED_MIME@ {
        Err(ErrorView::UnsupportedMime)
    } else {
        Ok(TransferView { id: transfer_id, total_len, next_seq: 0, received: Seq::empty() })
    }
}

/// How a chunk ends: it is appended, or it is refused.
pub open spec fn pushed(
    v: AssemblerView,
    transfer_id: u32,
    seq: u32,
    payload: Seq<u8>,
) -> Result<TransferView, ErrorView> {
    match v {
        None => Err(ErrorView::Protocol("no active transfer"@)),
        Some(t) => if t.id != transfer_id {
            Err(ErrorView::Protocol("transfer_id mismatch"@))
        } else if seq != t.next_seq {
            Err(ErrorView::Protocol("chunk out of order"@))
        } else if payload.len() > MAX_CHUNK_LEN {
            Err(ErrorView::Oversize)
        } else if t.received.len() + payload.len() > t.total_len {
            Err(ErrorView::Protocol("chunks exceed declared total_len"@))
        } else {
            Ok(
                TransferView {
                    id: t.id,
                    total_len: t.total_len,
                    next_seq: (t.next_seq + 1) as u32,
                    received: t.received + payload,
                },
            )
        },
    }
}

/// How a completion ends: the whole of the data comes out, or the completion is refused.
pub open spec fn completed(v: AssemblerView) -> Result<Seq<u8>, ErrorView> {
    match v {
        None => Err(ErrorView::Protocol("no active transfer"@)),
        Some(t) => if t.received.len() != t.total_len {
            Err(ErrorView::Protocol("incomplete transfer"@))
        } else {
            Ok(t.received)
        },
    }
}

/// Puts the chunks of one transfer at a time together: `offer`, then `push_chunk` until all has
/// arrived, then `complete`; `abort` at any point throws everything away.
#[derive(Debug)]
pub struct ClipboardAssembler {
    transfer_id: Option<u32>,
    total_len: u64,
    next_seq: u32,
    buf: Vec<u8>,
}

impl View for ClipboardAssembler {
    type V = AssemblerView;

    closed spec fn view(&self) -> AssemblerView {
        match self.transfer_id {
            None => None,
            Some(id) => Some(
                TransferView {
                    id,
                    total_len: self.total_len,
                    next_seq: self.next_seq,
                    received: self.buf@,
                },
            ),
        }
    }
}

impl Default for ClipboardAssembler {
    fn default() -> (r: Self)
        ensures
            r@ == None::<TransferView>,
            r.wf(),
    {
        ClipboardAssembler { transfer_id: None, total_len: 0, next_seq: 0, buf: Vec::new() }
    }
}

impl ClipboardAssembler {
    /// The bytes that the assembler holds.
    pub closed spec fn held(&self) -> Seq<u8> {
        self.buf@
    }

    /// The assembler is within its bounds, and holds the bytes of the transfer under way and no
    /// others: none when there is no transfer.
    pub open spec fn wf(&self) -> bool {
        bounded(self@) && self.held() == arrived(self@)
    }

    /// An assembler with no transfer under way.
    pub fn new() -> (r: Self)
        ensures
            r@ == None::<TransferView>,
            r.wf(),
    {
        Self::default()
    }

    /// Begins a transfer. Refused while another is under way, above [`MAX_TOTAL_LEN`], and for a
    /// MIME type other than [`SUPPORTED_MIME`].
    pub fn offer(&mut self, transfer_id: u32, mime: &str, total_len: u64) -> (r: Result<
        (),
        ClipboardError,
    >)
        requires
            old(self).wf(),
        ensures
            final(self).wf(),
            match r {
                Ok(_) => offered(old(self)@, transfer_id, mime@, total_len) matches Ok(t)
                    && final(self)@ == Some(t),
                Err(e) => offered(old(self)@, transfer_id, mime@, total_len) == Err::<
                    TransferView,
                    ErrorView,
                >(e@) && *final(self) == *old(self),
            },
    {
        if self.transfer_id.is_some() {
            return Err(ClipboardError::Protocol("transfer already in progress"));
        }
        if total_len > MAX_TOTAL_LEN as u64 {
            return Err(ClipboardError::Oversize);
        }
        if !text::str_eq(mime, SUPPORTED_MIME) {
            return Err(ClipboardError::UnsupportedMime);
        }
        self.transfer_id = Some(transfer_id);
        self.total_len = total_len;
        self.next_seq = 0;
        self.buf.clear();
        Ok(())
    }

    /// Whether `push_chunk` would take this chunk.
    pub fn accepts_chunk(&self, transfer_id: u32, seq: u32, payload: &[u8]) -> (r: bool)
        requires
            self.wf(),
        ensures
            r == (pushed(self@, transfer_id, seq, payload@) is Ok),
    {
        match self.transfer_id {
            None => false,
            Some(id) => id == transfer_id && seq == self.next_seq && payload.len() <= MAX_CHUNK_LEN
                && self.buf.len() + payload.len() <= self.total_len as usize,
        }
    }

    /// Takes a chunk. Refused without a transfer, under another id, out of order, above
    /// [`MAX_CHUNK_LEN`], and beyond the announced length.
    ///
    /// Chunks are numbered in 32 bits: the last number is not for use.
    pub fn push_chunk(&mut self, transfer_id: u32, seq: u32, payload: &[u8]) -> (r: Result<
        (),
        ClipboardError,
    >)
        requires
            old(self).wf(),
            pushed(old(self)@, transfer_id, seq, payload@) is Ok ==> seq < u32::MAX,
        ensures
            final(self).wf(),
            match r {
                Ok(_) => pushed(old(self)@, transfer_id, seq, payload@) matches Ok(t)
                    && final(self)@ == Some(t),
                Err(e) => pushed(old(self)@, transfer_id, seq, payload@) == Err::<
                    TransferView,
                    ErrorView,
                >(e@) && *final(self) == *old(self),
            },
    {
        let id: u32 = match self.transfer_id {
            Some(id) => id,
            None => {
                return Err(ClipboardError::Protocol("no active transfer"));
            },
        };
        if id != transfer_id {
            return Err(ClipboardError::Protocol("transfer_id mismatch"));
        }
        if seq != self.next_seq {
            return Err(ClipboardError::Protocol("chunk out of order"));
        }
        if payload.len() > MAX_CHUNK_LEN {
            return Err(ClipboardError::Oversize);
        }
        if self.buf.len() + payload.len() > self.total_len as usize {
            return Err(ClipboardError::Protocol("chunks exceed declared total_len"));
        }
        bytes::push_all(&mut self.buf, payload);
        self.next_seq = self.next_seq + 1;
        Ok(())
    }

    /// Hands out the data of a transfer that has arrived in full, and is ready for the next.
    /// Refused, with nothing lost, while bytes are missing.
    pub fn complete(&mut self) -> (r: Result<Vec<u8>, ClipboardError>)
        requires
            old(self).wf(),
        ensures
            final(self).wf(),
            match r {
                Ok(data) => completed(old(self)@) == Ok::<Seq<u8>, ErrorView>(data@)
                    && final(self)@ == None::<TransferView>,
                Err(e) => completed(old(self)@) == Err::<Seq<u8>, ErrorView>(e@) && *final(self)
                    == *old(self),
            },
    {
        if self.transfer_id.is_none() {
            return Err(ClipboardError::Protocol("no active transfer"));
        }
        if self.buf.len() != self.total_len as usize {
            return Err(ClipboardError::Protocol("incomplete transfer"));
        }
        self.transfer_id = None;
        self.total_len = 0;
        self.next_seq = 0;
        let mut data: Vec<u8> = Vec::new();
        std::mem::swap(&mut data, &mut self.buf);
        Ok(data)
    }

    /// Throws away whatever has arrived.
    pub fn abort(&mut self)
        ensures
            final(self).wf(),
            final(self)@ == None::<TransferView>,
    {
        *self = Self::default();
    }

    /// Throws away whatever has arrived, as when the connection breaks.
    pub fn discard_all(&mut self)
        ensures
            final(self).wf(),
            final(self)@ == None::<TransferView>,
    {
        self.abort();
    }
}

/// Every operation of an assembler keeps it well formed, so whatever a peer sends, no more than
/// [`MAX_TOTAL_LEN`] bytes are ever held, and none while no transfer is under way.
pub proof fn law_holds_no_more_than_allowed(a: ClipboardAssembler)
    requires
        a.wf(),
    ensures
        a.held().len() <= MAX_TOTAL_LEN,
        a@ is None ==> a.held().len() == 0,
{
}

/// What is handed out is all that was announced: a transfer that is one byte short, or none, gives
/// nothing.
pub proof fn law_nothing_comes_out_early(v: AssemblerView)
    ensures
        completed(v) matches Ok(data) ==> (v matches Some(t) && data == t.received && data.len()
            == t.total_len),
        v matches Some(t) ==> t.received.len() == t.total_len ==> completed(v) is Ok,
        v matches Some(t) ==> t.received.len() != t.total_len ==> completed(v) == Err::<
            Seq<u8>,
            ErrorView,
        >(ErrorView::Protocol("incomplete transfer"@)),
        v is None ==> completed(v) == Err::<Seq<u8>, ErrorView>(
            ErrorView::Protocol("no active transfer"@),
        ),
{
}

/// A chunk that is taken adds its bytes at the end, asks for the next number and changes nothing
/// else; it can be taken only as the next of its transfer.
pub proof fn law_chunk_adds_its_bytes(v: AssemblerView, id: u32, seq: u32, payload: Seq<u8>)
    ensures
        pushed(v, id, seq, payload) is Ok <==> (v matches Some(t) && id == t.id && seq
            == t.next_seq && payload.len() <= 16 * 1024 && t.received.len() + payload.len()
            <= t.total_len),
        pushed(v, id, seq, payload) matches Ok(u) ==> (v matches Some(t) && u.received
            == t.received + payload && u.id == t.id && u.total_len == t.total_len && (seq
            < u32::MAX ==> u.next_seq == seq + 1)),
{
}

/// An offer that is taken begins a transfer with nothing in it; it can be taken only with none under
/// way, up to 1 MiB, and for text.
pub proof fn law_offer_begins_with_nothing(
    v: AssemblerView,
    id: u32,
    mime: Seq<char>,
    total_len: u64,
)
    ensures
        offered(v, id, mime, total_len) is Ok <==> v is None && total_len <= 1024 * 1024 && mime
            == "text/plain;charset=utf-8"@,
        offered(v, id, mime, total_len) matches Ok(t) ==> t.id == id && t.total_len == total_len
            && t.next_seq == 0 && t.received.len() == 0,
{
}

} // verus!
