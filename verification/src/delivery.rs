//! What a push and a receiving session promise together: the data arrives whole or not at all.

use vstd::prelude::*;
use vstd::string::*;
use vstd::utf8::*;
use crate::assembler;
use crate::assembler::TransferView;
use crate::bytes;
use crate::channel;
use crate::channel::ReceivedView;
use crate::clipboard;
use crate::clipboard::{
    ErrorView, MsgView, MAX_CHUNK_LEN, MAX_FRAME_LEN, MAX_TOTAL_LEN, SUPPORTED_MIME,
};
use crate::noise;
use crate::noise::TAG_LEN;
use crate::push;
use crate::push::PUSH_TRANSFER_ID;
use crate::session::{ActionView, SessionView};

verus! {

/// How a session takes some messages in turn: where it ends and what it calls for, or the first
/// refusal.
pub open spec fn taken_all(s: SessionView, msgs: Seq<MsgView>) -> Result<
    (SessionView, Seq<ActionView>),
    ErrorView,
>
    decreases msgs.len(),
{
    if msgs.len() == 0 {
        Ok((s, Seq::empty()))
    } else {
        match taken_all(s, msgs.drop_last()) {
            Ok((t, actions)) => match t.taken(msgs.last()) {
                Ok((u, action)) => Ok((u, actions.push(action))),
                Err(e) => Err(e),
            },
            Err(e) => Err(e),
        }
    }
}

/// The first message of a push and the first `i` of its chunks.
spec fn begun(data: Seq<u8>, i: nat) -> Seq<MsgView> {
    seq![push::offer_msg(data)] + Seq::new(i, |j: int| push::chunk_msg(data, j))
}

/// What the first message of a push and the first `i` of its chunks call for.
spec fn begun_actions(data: Seq<u8>, i: nat) -> Seq<ActionView> {
    seq![
        ActionView::Began {
            transfer_id: PUSH_TRANSFER_ID,
            mime: SUPPORTED_MIME@,
            total_len: data.len() as u64,
        },
    ] + Seq::new(i, |j: int| ActionView::Stored)
}

/// How many bytes the first `i` chunks hold.
spec fn sent(data: Seq<u8>, i: nat) -> int {
    if i * MAX_CHUNK_LEN <= data.len() {
        (i * MAX_CHUNK_LEN) as int
    } else {
        data.len() as int
    }
}

/// A session that has taken the first `i` chunks of a push holds their bytes.
proof fn lemma_begun(s: SessionView, data: Seq<u8>, i: nat)
    requires
        data.len() <= MAX_TOTAL_LEN,
        s.transfer is None,
        i <= push::chunk_count(data.len()),
    ensures
        taken_all(s, begun(data, i)) == Ok::<(SessionView, Seq<ActionView>), ErrorView>(
            (
                SessionView {
                    transfer: Some(
                        TransferView {
                            id: PUSH_TRANSFER_ID,
                            total_len: data.len() as u64,
                            next_seq: i as u32,
                            received: data.take(sent(data, i)),
                        },
                    ),
                    mime: Some(SUPPORTED_MIME@),
                    use_clipboard: s.use_clipboard,
                },
                begun_actions(data, i),
            ),
        ),
    decreases i,
{
    if i == 0 {
        assert(begun(data, 0) =~= seq![push::offer_msg(data)]);
        assert(begun(data, 0).drop_last() =~= Seq::<MsgView>::empty());
        assert(taken_all(s, Seq::<MsgView>::empty()) == Ok::<
            (SessionView, Seq<ActionView>),
            ErrorView,
        >((s, Seq::empty())));
        assert(data.take(sent(data, 0)) =~= Seq::<u8>::empty());
        assert(begun_actions(data, 0) =~= Seq::<ActionView>::empty().push(begun_actions(data, 0)[0]));
    } else {
        let j = (i - 1) as nat;
        lemma_begun(s, data, j);
        assert(begun(data, i).drop_last() =~= begun(data, j));
        assert(begun(data, i).last() == push::chunk_msg(data, j as int));
        let chunk = push::chunk_bytes(data, j as int);
        assert(j * MAX_CHUNK_LEN < data.len());
        assert(data.take(sent(data, j)) + chunk =~= data.take(sent(data, i)));
        assert(begun_actions(data, i) =~= begun_actions(data, j).push(ActionView::Stored));
    }
}

/// Delivery: a session with nothing under way takes a whole push, and hands out exactly the data
/// that was pushed, as text, once, at the very end; it is then ready for the next.
pub proof fn law_push_is_delivered(s: SessionView, data: Seq<u8>)
    requires
        data.len() <= MAX_TOTAL_LEN,
        s.transfer is None,
    ensures
        taken_all(s, push::transfer_msgs(data)) matches Ok((end, actions)) && end
            == SessionView::idle(s.use_clipboard) && actions.len() == push::chunk_count(data.len())
            + 2 && actions.last() == (ActionView::Deliver {
            transfer_id: PUSH_TRANSFER_ID,
            mime: SUPPORTED_MIME@,
            data,
            to_clipboard: s.use_clipboard,
        }) && forall|i: int|
            0 <= i < actions.len() - 1 ==> !(#[trigger] actions[i] is Deliver),
{
    let n = push::chunk_count(data.len());
    lemma_begun(s, data, n);
    assert(push::transfer_msgs(data).drop_last() =~= begun(data, n));
    assert(data.take(sent(data, n)) =~= data);
    let actions = taken_all(s, push::transfer_msgs(data))->Ok_0.1;
    assert forall|i: int| 0 <= i < actions.len() - 1 implies !(#[trigger] actions[i] is Deliver) by {
        assert(actions[i] == begun_actions(data, n)[i]);
    }
}

/// A push that is cut short anywhere before its last message delivers nothing.
pub proof fn law_cut_short_push_delivers_nothing(s: SessionView, data: Seq<u8>, k: int)
    requires
        data.len() <= MAX_TOTAL_LEN,
        s.transfer is None,
        0 <= k < push::transfer_msgs(data).len(),
    ensures
        taken_all(s, push::transfer_msgs(data).take(k)) matches Ok((end, actions)) && forall|i: int|
            0 <= i < actions.len() ==> !(#[trigger] actions[i] is Deliver),
{
    if k == 0 {
        assert(push::transfer_msgs(data).take(0) =~= Seq::<MsgView>::empty());
        assert(taken_all(s, Seq::<MsgView>::empty()) == Ok::<
            (SessionView, Seq<ActionView>),
            ErrorView,
        >((s, Seq::empty())));
    } else {
        let i = (k - 1) as nat;
        lemma_begun(s, data, i);
        assert(push::transfer_msgs(data).take(k) =~= begun(data, i));
        let actions = begun_actions(data, i);
        assert forall|j: int| 0 <= j < actions.len() implies !(#[trigger] actions[j] is Deliver) by {}
    }
}

/// Every message of a push can be encoded and fits in one sealed frame.
pub proof fn law_push_messages_fit_frames(data: Seq<u8>, k: int)
    requires
        data.len() <= MAX_TOTAL_LEN,
        0 <= k < push::transfer_msgs(data).len(),
    ensures
        clipboard::encodable(push::transfer_msgs(data)[k]),
        clipboard::encoded(push::transfer_msgs(data)[k]).len() + TAG_LEN <= MAX_FRAME_LEN,
{
    let msg = push::transfer_msgs(data)[k];
    bytes::lemma_le_bytes_len(PUSH_TRANSFER_ID as nat, 4);
    if k == 0 {
        reveal_strlit("text/plain;charset=utf-8");
        is_ascii_chars_encode_utf8(SUPPORTED_MIME@);
        bytes::lemma_le_bytes_len(encode_utf8(SUPPORTED_MIME@).len() % 0x1_0000, 2);
        bytes::lemma_le_bytes_len(data.len(), 8);
    } else if k < push::transfer_msgs(data).len() - 1 {
        let chunk = push::chunk_bytes(data, k - 1);
        assert(msg == push::chunk_msg(data, k - 1));
        assert((k - 1) * MAX_CHUNK_LEN < data.len());
        assert(chunk.len() <= MAX_CHUNK_LEN);
        bytes::lemma_le_bytes_len((k - 1) as u32 as nat, 4);
        bytes::lemma_le_bytes_len(chunk.len() % 0x1_0000_0000, 4);
    }
}

/// Every message of a push is one that a session, whatever its state, may be given.
pub proof fn law_push_messages_may_be_given(s: SessionView, data: Seq<u8>, k: int)
    requires
        data.len() <= MAX_TOTAL_LEN,
        0 <= k < push::transfer_msgs(data).len(),
    ensures
        s.numbered(push::transfer_msgs(data)[k]),
{
    if 0 < k < push::transfer_msgs(data).len() - 1 {
        assert(push::transfer_msgs(data)[k] == push::chunk_msg(data, k - 1));
    }
}

/// Whether one end sends `msgs` in turn and the other is given each frame as it comes: the ends go
/// through `a` and `b`, and `wires` are the frames.
pub open spec fn is_exchange(
    a: Seq<snow::TransportState>,
    b: Seq<snow::TransportState>,
    wires: Seq<Seq<u8>>,
    msgs: Seq<MsgView>,
) -> bool {
    &&& a.len() == msgs.len() + 1
    &&& b.len() == msgs.len() + 1
    &&& wires.len() == msgs.len()
    &&& forall|k: int|
        0 <= k < msgs.len() ==> #[trigger] channel::carries(
            a[k],
            wires[k],
            clipboard::encoded(msgs[k]),
        ) && noise::moved(a[k], a[k + 1], 1, 0) && noise::moved(
            b[k],
            b[k + 1],
            0,
            if channel::is_read(b[k], wires[k]) {
                1
            } else {
                0
            },
        )
}

/// Over a session whose ends are paired, every message of a push arrives as it was sent, and the
/// ends are paired again after each.
pub proof fn law_push_arrives(
    a: Seq<snow::TransportState>,
    b: Seq<snow::TransportState>,
    wires: Seq<Seq<u8>>,
    data: Seq<u8>,
    k: int,
)
    requires
        data.len() <= MAX_TOTAL_LEN,
        0 <= k <= push::transfer_msgs(data).len(),
        a.len() == b.len() == push::transfer_msgs(data).len() + 1,
        noise::paired(a[0], b[0]),
        noise::tx_nonce(a[0]) + push::transfer_msgs(data).len() <= u64::MAX,
    ensures
        is_exchange(a, b, wires, push::transfer_msgs(data)) ==> noise::paired(a[k], b[k])
            && noise::tx_nonce(a[k]) == noise::tx_nonce(a[0]) + k && (k < wires.len()
            ==> channel::arrival(b[k], wires[k]) == Ok::<ReceivedView, ErrorView>(
            ReceivedView::Msg(push::transfer_msgs(data)[k]),
        )),
    decreases k,
{
    let msgs = push::transfer_msgs(data);
    if is_exchange(a, b, wires, msgs) {
        if k > 0 {
            law_push_arrives(a, b, wires, data, k - 1);
            assert(channel::carries(a[k - 1], wires[k - 1], clipboard::encoded(msgs[k - 1])));
            law_push_messages_fit_frames(data, k - 1);
            channel::law_message_arrives(
                a[k - 1],
                b[k - 1],
                wires[k - 1],
                Seq::empty(),
                msgs[k - 1],
            );
            assert(wires[k - 1] + Seq::<u8>::empty() =~= wires[k - 1]);
            noise::law_ends_stay_paired(a[k - 1], b[k - 1], a[k - 1 + 1], b[k - 1 + 1]);
        }
        if k < msgs.len() {
            assert(channel::carries(a[k], wires[k], clipboard::encoded(msgs[k])));
            law_push_messages_fit_frames(data, k);
            channel::law_message_arrives(a[k], b[k], wires[k], Seq::empty(), msgs[k]);
            assert(wires[k] + Seq::<u8>::empty() =~= wires[k]);
        }
    }
}

/// The bytes of the chunks since the last message that was no chunk.
pub open spec fn gathered(msgs: Seq<MsgView>) -> Seq<u8>
    decreases msgs.len(),
{
    if msgs.len() == 0 {
        Seq::empty()
    } else {
        match msgs.last() {
            MsgView::Chunk { transfer_id, seq, payload } => gathered(msgs.drop_last()) + payload,
            _ => Seq::empty(),
        }
    }
}

/// What every session reached from an idle one keeps: its transfer is within bounds, and was
/// announced as text.
pub open spec fn sound(s: SessionView) -> bool {
    &&& assembler::bounded(s.transfer)
    &&& s.mime matches Some(mime) ==> mime == SUPPORTED_MIME@
}

/// Integrity, whatever the peer sends: a session reached from an idle one is sound and holds
/// exactly the bytes of the chunks since the offer.
pub proof fn law_session_stays_sound(use_clipboard: bool, msgs: Seq<MsgView>)
    requires
        taken_all(SessionView::idle(use_clipboard), msgs) is Ok,
    ensures
        ({
            let s = taken_all(SessionView::idle(use_clipboard), msgs)->Ok_0.0;
            &&& sound(s)
            &&& s.use_clipboard == use_clipboard
            &&& s.transfer matches Some(t) ==> t.received == gathered(msgs)
        }),
    decreases msgs.len(),
{
    if msgs.len() > 0 {
        law_session_stays_sound(use_clipboard, msgs.drop_last());
    }
}

/// Integrity of what is delivered, whatever the peer sends: it is the bytes of the chunks since
/// the offer, no more than [`MAX_TOTAL_LEN`] of them, and is text; it goes to the clipboard just
/// where the session was set up to use it.
pub proof fn law_deliveries_are_what_was_sent(
    use_clipboard: bool,
    msgs: Seq<MsgView>,
    transfer_id: u32,
)
    requires
        taken_all(
            SessionView::idle(use_clipboard),
            msgs.push(MsgView::Complete { transfer_id }),
        ) is Ok,
    ensures
        taken_all(
            SessionView::idle(use_clipboard),
            msgs.push(MsgView::Complete { transfer_id }),
        )->Ok_0.1.last() == (ActionView::Deliver {
            transfer_id,
            mime: SUPPORTED_MIME@,
            data: gathered(msgs),
            to_clipboard: use_clipboard,
        }),
        gathered(msgs).len() <= MAX_TOTAL_LEN,
{
    let all = msgs.push(MsgView::Complete { transfer_id });
    assert(all.drop_last() =~= msgs);
    law_session_stays_sound(use_clipboard, msgs);
}

/// Whether a message is a chunk of a transfer, with a number and within the size of a chunk.
pub open spec fn is_chunk(msg: MsgView, id: u32, number: int) -> bool {
    msg matches MsgView::Chunk { transfer_id, seq, payload } && transfer_id == id && seq == number
        && payload.len() <= 16 * 1024
}

/// Whether some messages are the chunks of a transfer from the first one on, in order.
pub open spec fn is_run(chunks: Seq<MsgView>, id: u32) -> bool {
    forall|k: int| 0 <= k < chunks.len() ==> is_chunk(#[trigger] chunks[k], id, k)
}

/// A session that has taken an offer takes chunks exactly as long as they are in order and their
/// bytes no more than was announced, and holds their bytes.
proof fn lemma_chunks_are_taken(
    s: SessionView,
    id: u32,
    total_len: u64,
    chunks: Seq<MsgView>,
)
    requires
        s.transfer is None,
        total_len <= 1024 * 1024,
        chunks.len() < u32::MAX,
        forall|k: int| 0 <= k < chunks.len() ==> #[trigger] chunks[k] is Chunk,
    ensures
        ({
            let offer = MsgView::Offer { transfer_id: id, mime: SUPPORTED_MIME@, total_len };
            let end = taken_all(s, seq![offer] + chunks);
            if is_run(chunks, id) && gathered(chunks).len() <= total_len {
                end matches Ok((u, actions)) && u == (SessionView {
                    transfer: Some(
                        TransferView {
                            id,
                            total_len,
                            next_seq: chunks.len() as u32,
                            received: gathered(chunks),
                        },
                    ),
                    mime: Some(SUPPORTED_MIME@),
                    use_clipboard: s.use_clipboard,
                })
            } else {
                end is Err
            }
        }),
    decreases chunks.len(),
{
    let offer = MsgView::Offer { transfer_id: id, mime: SUPPORTED_MIME@, total_len };
    let all = seq![offer] + chunks;
    if chunks.len() == 0 {
        assert(all =~= seq![offer]);
        assert(all.drop_last() =~= Seq::<MsgView>::empty());
        assert(taken_all(s, Seq::<MsgView>::empty()) == Ok::<
            (SessionView, Seq<ActionView>),
            ErrorView,
        >((s, Seq::empty())));
    } else {
        let front = chunks.drop_last();
        let last = chunks.last();
        assert(all.drop_last() =~= seq![offer] + front);
        assert(all.last() == last);
        assert forall|k: int| 0 <= k < front.len() implies #[trigger] front[k] is Chunk by {
            assert(front[k] == chunks[k]);
        }
        lemma_chunks_are_taken(s, id, total_len, front);
        assert(last is Chunk);
        assert(chunks[chunks.len() - 1] == last);
        if is_run(chunks, id) {
            assert forall|k: int| 0 <= k < front.len() implies is_chunk(#[trigger] front[k], id, k) by {
                assert(is_chunk(chunks[k], id, k));
            }
            assert(is_chunk(last, id, front.len() as int));
        } else if is_run(front, id) {
            assert(!is_chunk(last, id, front.len() as int)) by {
                if is_chunk(last, id, front.len() as int) {
                    assert forall|k: int| 0 <= k < chunks.len() implies is_chunk(
                        #[trigger] chunks[k],
                        id,
                        k,
                    ) by {
                        if k < front.len() {
                            assert(is_chunk(front[k], id, k));
                        }
                    }
                }
            }
        }
    }
}

/// A transfer, from its offer to its completion, is delivered exactly if it is offered as text of
/// at most 1 MiB, its chunks carry its id and come in order, each of at most 16 KiB, and their
/// bytes are as many as were announced. What is delivered is those bytes.
pub proof fn law_transfer_is_whole_or_refused(
    s: SessionView,
    id: u32,
    mime: Seq<char>,
    total_len: u64,
    chunks: Seq<MsgView>,
    done: u32,
)
    requires
        s.transfer is None,
        chunks.len() < u32::MAX,
        forall|k: int| 0 <= k < chunks.len() ==> #[trigger] chunks[k] is Chunk,
    ensures
        ({
            let offer = MsgView::Offer { transfer_id: id, mime, total_len };
            let end = taken_all(
                s,
                seq![offer] + chunks + seq![MsgView::Complete { transfer_id: done }],
            );
            &&& end is Ok <==> mime == "text/plain;charset=utf-8"@ && total_len <= 1024 * 1024
                && is_run(chunks, id) && gathered(chunks).len() == total_len
            &&& end matches Ok((u, actions)) ==> u == SessionView::idle(s.use_clipboard)
                && actions.last() == (ActionView::Deliver {
                transfer_id: done,
                mime,
                data: gathered(chunks),
                to_clipboard: s.use_clipboard,
            })
        }),
{
    let offer = MsgView::Offer { transfer_id: id, mime, total_len };
    let begun = seq![offer] + chunks;
    let all = begun + seq![MsgView::Complete { transfer_id: done }];
    assert(all.drop_last() =~= begun);
    if mime == SUPPORTED_MIME@ && total_len <= 1024 * 1024 {
        lemma_chunks_are_taken(s, id, total_len, chunks);
    } else {
        lemma_refusal_stays(s, seq![offer], chunks);
        assert(seq![offer].drop_last() =~= Seq::<MsgView>::empty());
        assert(taken_all(s, Seq::<MsgView>::empty()) == Ok::<
            (SessionView, Seq<ActionView>),
            ErrorView,
        >((s, Seq::empty())));
    }
}

/// Once a message is refused, nothing that follows it is taken.
proof fn lemma_refusal_stays(s: SessionView, a: Seq<MsgView>, b: Seq<MsgView>)
    ensures
        taken_all(s, a) is Err ==> taken_all(s, a + b) is Err,
    decreases b.len(),
{
    if b.len() == 0 {
        assert(a + b =~= a);
    } else {
        lemma_refusal_stays(s, a, b.drop_last());
        assert((a + b).drop_last() =~= a + b.drop_last());
    }
}

/// Whether the `i`-th message is the offer of a transfer and all that follow are its chunks, from
/// the first one on.
pub open spec fn is_offer_of(msgs: Seq<MsgView>, i: int, id: u32, total_len: u64) -> bool {
    &&& 0 <= i < msgs.len()
    &&& msgs[i] == (MsgView::Offer {
        transfer_id: id,
        mime: "text/plain;charset=utf-8"@,
        total_len,
    })
    &&& forall|j: int| i < j < msgs.len() ==> is_chunk(#[trigger] msgs[j], id, j - i - 1)
}

/// A transfer under way was begun by the last message that was no chunk, an offer, and the chunks
/// since are numbered from 0.
proof fn lemma_transfer_was_offered(use_clipboard: bool, msgs: Seq<MsgView>)
    requires
        msgs.len() < u32::MAX,
        taken_all(SessionView::idle(use_clipboard), msgs) is Ok,
    ensures
        taken_all(SessionView::idle(use_clipboard), msgs)->Ok_0.0.transfer matches Some(t) ==> t.next_seq
            < msgs.len() && is_offer_of(msgs, msgs.len() - 1 - t.next_seq, t.id, t.total_len),
    decreases msgs.len(),
{
    if msgs.len() > 0 {
        let start = SessionView::idle(use_clipboard);
        let front = msgs.drop_last();
        lemma_transfer_was_offered(use_clipboard, front);
        let s = taken_all(start, front)->Ok_0.0;
        let u = taken_all(start, msgs)->Ok_0.0;
        if u.transfer is Some && msgs.last() is Chunk {
            let t = s.transfer->0;
            let i = front.len() - 1 - t.next_seq;
            assert(is_offer_of(front, i, t.id, t.total_len));
            assert forall|j: int| i < j < msgs.len() implies is_chunk(
                #[trigger] msgs[j],
                t.id,
                j - i - 1,
            ) by {
                if j < front.len() {
                    assert(is_chunk(front[j], t.id, j - i - 1));
                }
            }
        }
    }
}

/// Whatever messages a session takes, what is delivered was announced: it is the bytes of the
/// chunks since an offer, they are as many as that offer said, and nothing came in between.
pub proof fn law_delivery_is_as_long_as_announced(
    use_clipboard: bool,
    msgs: Seq<MsgView>,
    transfer_id: u32,
)
    requires
        msgs.len() < u32::MAX,
        taken_all(
            SessionView::idle(use_clipboard),
            msgs.push(MsgView::Complete { transfer_id }),
        ) is Ok,
    ensures
        exists|i: int, id: u32, total_len: u64| #[trigger]
            is_offer_of(msgs, i, id, total_len) && gathered(msgs).len() == total_len && total_len
                <= 1024 * 1024,
        taken_all(
            SessionView::idle(use_clipboard),
            msgs.push(MsgView::Complete { transfer_id }),
        )->Ok_0.1.last() == (ActionView::Deliver {
            transfer_id,
            mime: "text/plain;charset=utf-8"@,
            data: gathered(msgs),
            to_clipboard: use_clipboard,
        }),
{
    let all = msgs.push(MsgView::Complete { transfer_id });
    assert(all.drop_last() =~= msgs);
    law_session_stays_sound(use_clipboard, msgs);
    lemma_transfer_was_offered(use_clipboard, msgs);
    let t = taken_all(SessionView::idle(use_clipboard), msgs)->Ok_0.0.transfer->0;
    assert(is_offer_of(msgs, msgs.len() - 1 - t.next_seq, t.id, t.total_len));
}

/// A completion that comes while bytes are missing, or with no transfer under way, is refused and
/// delivers nothing.
pub proof fn law_incomplete_transfer_is_refused(s: SessionView, transfer_id: u32)
    ensures
        s.transfer matches Some(t) ==> t.received.len() < t.total_len ==> s.taken(
            MsgView::Complete { transfer_id },
        ) == Err::<(SessionView, ActionView), ErrorView>(
            ErrorView::Protocol("incomplete transfer"@),
        ),
        s.transfer is None ==> s.taken(MsgView::Complete { transfer_id }) == Err::<
            (SessionView, ActionView),
            ErrorView,
        >(ErrorView::Protocol("no active transfer"@)),
{
}

/// An offer is refused while a transfer is under way, then above 1 MiB, then for another type than
/// text; for no other reason.
pub proof fn law_refusals_of_offers(
    s: SessionView,
    transfer_id: u32,
    mime: Seq<char>,
    total_len: u64,
)
    ensures
        s.taken(MsgView::Offer { transfer_id, mime, total_len }) matches Err(e) ==> {
            ||| s.transfer is Some && e == ErrorView::Protocol("transfer already in progress"@)
            ||| s.transfer is None && total_len > 1024 * 1024 && e == ErrorView::Oversize
            ||| s.transfer is None && total_len <= 1024 * 1024 && mime
                != "text/plain;charset=utf-8"@ && e == ErrorView::UnsupportedMime
        },
        s.transfer is Some || total_len > 1024 * 1024 || mime != "text/plain;charset=utf-8"@
            ==> s.taken(MsgView::Offer { transfer_id, mime, total_len }) is Err,
{
}

/// A chunk is refused without a transfer, under another id, out of order, above 16 KiB, and beyond
/// what was announced, in this order; for no other reason.
pub proof fn law_refusals_of_chunks(s: SessionView, transfer_id: u32, seq: u32, payload: Seq<u8>)
    ensures
        s.taken(MsgView::Chunk { transfer_id, seq, payload }) matches Err(e) ==> match s.transfer {
            None => e == ErrorView::Protocol("no active transfer"@),
            Some(t) => {
                ||| transfer_id != t.id && e == ErrorView::Protocol("transfer_id mismatch"@)
                ||| transfer_id == t.id && seq != t.next_seq && e == ErrorView::Protocol(
                    "chunk out of order"@,
                )
                ||| transfer_id == t.id && seq == t.next_seq && payload.len() > 16 * 1024 && e
                    == ErrorView::Oversize
                ||| transfer_id == t.id && seq == t.next_seq && payload.len() <= 16 * 1024
                    && t.received.len() + payload.len() > t.total_len && e == ErrorView::Protocol(
                    "chunks exceed declared total_len"@,
                )
            },
        },
        s.transfer is None ==> s.taken(MsgView::Chunk { transfer_id, seq, payload }) is Err,
        s.transfer matches Some(t) ==> (transfer_id != t.id || seq != t.next_seq || payload.len()
            > 16 * 1024 || t.received.len() + payload.len() > t.total_len ==> s.taken(
            MsgView::Chunk { transfer_id, seq, payload },
        ) is Err),
{
}

/// An abort is always taken, whichever transfer it names, and leaves the session with nothing under
/// way.
pub proof fn law_abort_frees_the_session(s: SessionView, transfer_id: u32, reason: u8)
    ensures
        s.taken(MsgView::Abort { transfer_id, reason }) == Ok::<(SessionView, ActionView), ErrorView>(
            (
                SessionView::idle(s.use_clipboard),
                ActionView::Aborted { transfer_id, reason },
            ),
        ),
        SessionView::idle(s.use_clipboard).transfer is None,
        SessionView::idle(s.use_clipboard).use_clipboard == s.use_clipboard,
{
}

/// Each message that is taken calls for the one action that belongs to it, with what it said.
pub proof fn law_actions_answer_messages(s: SessionView, msg: MsgView)
    ensures
        s.taken(msg) matches Ok((u, action)) ==> u.use_clipboard == s.use_clipboard && match msg {
            MsgView::Offer { transfer_id, mime, total_len } => action == (ActionView::Began {
                transfer_id,
                mime,
                total_len,
            }) && (u.transfer matches Some(t) && t.id == transfer_id && t.total_len == total_len
                && t.next_seq == 0 && t.received.len() == 0) && u.mime == Some(mime),
            MsgView::Chunk { transfer_id, seq, payload } => action == ActionView::Stored && (
            s.transfer matches Some(t) && u.transfer matches Some(v) && v.id == t.id && v.total_len
                == t.total_len && v.received == t.received + payload && (seq < u32::MAX
                ==> v.next_seq == seq + 1)) && u.mime == s.mime,
            MsgView::Complete { transfer_id } => (action matches ActionView::Deliver {
                transfer_id: id,
                mime,
                data,
                to_clipboard,
            } && id == transfer_id && (s.transfer matches Some(t) && data == t.received) && (s.mime
                matches Some(m) ==> mime == m) && (s.mime is None ==> mime
                == "text/plain;charset=utf-8"@) && to_clipboard == (s.use_clipboard && mime
                == "text/plain;charset=utf-8"@)) && u == SessionView::idle(s.use_clipboard),
            MsgView::Abort { transfer_id, reason } => action == (ActionView::Aborted {
                transfer_id,
                reason,
            }),
        },
{
}

} // verus!
