//! The receiving side of a clipboard connection: each message in, what to do about it out.

use vstd::prelude::*;
use vstd::string::*;
use crate::assembler;
use crate::assembler::{AssemblerView, ClipboardAssembler, TransferView};
use crate::clipboard::{ClipboardError, ClipboardMsg, ErrorView, MsgView, SUPPORTED_MIME};
use crate::text;

verus! {

/// What a message calls for.
#[derive(Debug, Clone, PartialEq, Eq)]
pub enum SessionAction {
    /// A transfer has begun.
    Began { transfer_id: u32, mime: String, total_len: u64 },
    /// A chunk has been put away.
    Stored,
    /// A transfer is done: here is its data, and whether it goes to the clipboard.
    Deliver { transfer_id: u32, mime: String, data: Vec<u8>, to_clipboard: bool },
    /// The peer has called the transfer off.
    Aborted { transfer_id: u32, reason: u8 },
}

/// A [`SessionAction`] as contracts speak of it.
pub enum ActionView {
    Began { transfer_id: u32, mime: Seq<char>, total_len: u64 },
    Stored,
    Deliver { transfer_id: u32, mime: Seq<char>, data: Seq<u8>, to_clipboard: bool },
    Aborted { transfer_id: u32, reason: u8 },
}

impl View for SessionAction {
    type V = ActionView;

    open spec fn view(&self) -> ActionView {
        match *self {
            SessionAction::Began { transfer_id, mime, total_len } => ActionView::Began {
                transfer_id,
                mime: mime@,
                total_len,
            },
            SessionAction::Stored => ActionView::Stored,
            SessionAction::Deliver { transfer_id, mime, data, to_clipboard } => ActionView::Deliver {
                transfer_id,
                mime: mime@,
                data: data@,
                to_clipboard,
            },
            SessionAction::Aborted { transfer_id, reason } => ActionView::Aborted {
                transfer_id,
                reason,
            },
        }
    }
}

/// What a session holds: the transfer under way, the MIME type it was announced with, and
/// whether finished transfers go to the clipboard.
#[verifier::ext_equal]
pub struct SessionView {
    pub transfer: AssemblerView,
    pub mime: Option<Seq<char>>,
    pub use_clipboard: bool,
}

impl SessionView {
    /// A session with nothing under way.
    pub open spec fn idle(use_clipboard: bool) -> SessionView {
        SessionView { transfer: None, mime: None, use_clipboard }
    }

    /// How the session takes a message: it moves on and calls for an action, or it refuses.
    pub open spec fn taken(self, msg: MsgView) -> Result<(SessionView, ActionView), ErrorView> {
        match msg {
            MsgView::Offer { transfer_id, mime, total_len } => match assembler::offered(
                self.transfer,
                transfer_id,
                mime,
                total_len,
            ) {
                Ok(t) => Ok(
                    (
                        SessionView { transfer: Some(t), mime: Some(mime), ..self },
                        ActionView::Began { transfer_id, mime, total_len },
                    ),
                ),
                Err(e) => Err(e),
            },
            MsgView::Chunk { transfer_id, seq, payload } => match assembler::pushed(
                self.transfer,
                transfer_id,
                seq,
                payload,
            ) {
                Ok(t) => Ok((SessionView { transfer: Some(t), ..self }, ActionView::Stored)),
                Err(e) => Err(e),
            },
            MsgView::Complete { transfer_id } => match assembler::completed(self.transfer) {
                Ok(data) => {
                    let mime = match self.mime {
                        Some(mime) => mime,
                        None => SUPPORTED_MIME@,
                    };
                    Ok(
                        (
                            SessionView { transfer: None, mime: None, ..self },
                            ActionView::Deliver {
                                transfer_id,
                                mime,
                                data,
                                to_clipboard: self.use_clipboard && mime == SUPPORTED_MIME@,
                            },
                        ),
                    )
                },
                Err(e) => Err(e),
            },
            MsgView::Abort { transfer_id, reason } => Ok(
                (
                    SessionView { transfer: None, mime: None, ..self },
                    ActionView::Aborted { transfer_id, reason },
                ),
            ),
        }
    }

    /// Whether taking the message stays within the numbering of chunks.
    pub open spec fn numbered(self, msg: MsgView) -> bool {
        msg matches MsgView::Chunk { transfer_id, seq, payload } ==> (assembler::pushed(
            self.transfer,
            transfer_id,
            seq,
            payload,
        ) is Ok ==> seq < u32::MAX)
    }
}

/// One clipboard connection, past the handshake.
pub struct ReceiveSession {
    assembler: ClipboardAssembler,
    current_mime: Option<String>,
    use_clipboard: bool,
}

impl View for ReceiveSession {
    type V = SessionView;

    closed spec fn view(&self) -> SessionView {
        SessionView {
            transfer: self.assembler@,
            mime: match self.current_mime {
                Some(mime) => Some(mime@),
                None => None,
            },
            use_clipboard: self.use_clipboard,
        }
    }
}

impl ReceiveSession {
    /// The bytes that the session holds.
    pub closed spec fn held(&self) -> Seq<u8> {
        self.assembler.held()
    }

    /// The transfer under way is within its bounds, and its bytes are all that is held.
    pub open spec fn wf(&self) -> bool {
        assembler::bounded(self@.transfer) && self.held() == assembler::arrived(self@.transfer)
    }

    /// A session with nothing under way. `no_wl_copy` keeps finished transfers off the clipboard.
    pub fn new(no_wl_copy: bool) -> (r: Self)
        ensures
            r.wf(),
            r@ == SessionView::idle(!no_wl_copy),
    {
        ReceiveSession {
            assembler: ClipboardAssembler::new(),
            current_mime: None,
            use_clipboard: !no_wl_copy,
        }
    }

    /// Whether `on_msg` may be given this message: false only for a chunk that would be taken
    /// under the last chunk number.
    pub fn can_take(&self, msg: &ClipboardMsg) -> (r: bool)
        requires
            self.wf(),
        ensures
            r == self@.numbered(msg@),
    {
        match msg {
            ClipboardMsg::Chunk { transfer_id, seq, payload } => *seq < u32::MAX
                || !self.assembler.accepts_chunk(*transfer_id, *seq, payload.as_slice()),
            _ => true,
        }
    }

    /// Takes a message and says what to do. A refusal ends the connection.
    pub fn on_msg(&mut self, msg: ClipboardMsg) -> (r: Result<SessionAction, ClipboardError>)
        requires
            old(self).wf(),
            old(self)@.numbered(msg@),
        ensures
            final(self).wf(),
            match r {
                Ok(action) => old(self)@.taken(msg@) == Ok::<(SessionView, ActionView), ErrorView>(
                    (final(self)@, action@),
                ),
                Err(e) => old(self)@.taken(msg@) == Err::<(SessionView, ActionView), ErrorView>(e@)
                    && final(self)@ == old(self)@,
            },
    {
        match msg {
            ClipboardMsg::Offer { transfer_id, mime, total_len } => {
                match self.assembler.offer(transfer_id, mime.as_str(), total_len) {
                    Ok(_) => {
                        self.current_mime = Some(mime.clone());
                        Ok(SessionAction::Began { transfer_id, mime, total_len })
                    },
                    Err(e) => Err(e),
                }
            },
            ClipboardMsg::Chunk { transfer_id, seq, payload } => {
                match self.assembler.push_chunk(transfer_id, seq, payload.as_slice()) {
                    Ok(_) => Ok(SessionAction::Stored),
                    Err(e) => Err(e),
                }
            },
            ClipboardMsg::Complete { transfer_id } => {
                match self.assembler.complete() {
                    Ok(data) => {
                        let mime = match self.current_mime.take() {
                            Some(mime) => mime,
                            None => SUPPORTED_MIME.to_owned(),
                        };
                        let to_clipboard = self.use_clipboard && text::str_eq(
                            mime.as_str(),
                            SUPPORTED_MIME,
                        );
                        Ok(SessionAction::Deliver { transfer_id, mime, data, to_clipboard })
                    },
                    Err(e) => Err(e),
                }
            },
            ClipboardMsg::Abort { transfer_id, reason } => {
                self.assembler.abort();
                self.current_mime = None;
                Ok(SessionAction::Aborted { transfer_id, reason })
            },
        }
    }

    /// Throws away whatever has arrived, as when the connection breaks or a frame is bad.
    pub fn on_disconnect(&mut self)
        ensures
            final(self).wf(),
            final(self)@.transfer == None::<TransferView>,
            final(self)@.mime == old(self)@.mime,
            final(self)@.use_clipboard == old(self)@.use_clipboard,
    {
        self.assembler.discard_all();
    }
}

} // verus!
