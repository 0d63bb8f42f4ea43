//! The sending side of a clipboard transfer: what is asked for on the command line, and the
//! messages that carry the data.

use vstd::prelude::*;
use vstd::slice::*;
use vstd::string::*;
use vstd::utf8::*;
use crate::address;
use crate::args;
use crate::clipboard::{
    ClipboardMsg, MsgView, MAX_CHUNK_LEN, MAX_TOTAL_LEN, SUPPORTED_MIME,
};
use crate::hex;
use crate::noise::KEY_LEN;
use crate::text;

verus! {

/// The id of the one transfer that a push makes.
pub const PUSH_TRANSFER_ID: u32 = 1;

/// The reason given when the data is too long.
pub const ABORT_TOO_LARGE: u8 = 1;

/// What an address without a port ends with: a colon and the default port.
pub const PORT_SUFFIX: &'static str = ":9022";

/// Why a push is not made.
#[derive(Debug, Clone, PartialEq, Eq)]
pub enum PushError {
    /// No `--peer`.
    MissingPeer,
    /// No `--key`.
    MissingKey,
    /// No `--peer-key`.
    MissingPeerKey,
    /// Both `--text` and `--file`.
    TextAndFile,
    /// Neither `--text` nor `--file`.
    NoContent,
    /// The file is not UTF-8.
    FileNotUtf8,
    /// The local private key is not of the right length.
    BadPrivateKey,
    /// The peer's public key is not a key in hexadecimal.
    BadPeerKey,
}

/// Where the data comes from.
#[derive(Debug, Clone, PartialEq, Eq)]
pub enum PushSource {
    /// The data itself.
    Text(String),
    /// The path of a file.
    File(String),
}

/// What the command line of a push asks for.
#[derive(Debug, Clone, PartialEq, Eq)]
pub struct PushRequest {
    pub peer: String,
    pub key_path: String,
    pub peer_key: String,
    pub source: PushSource,
}

/// Whether a request is what some arguments ask for.
pub open spec fn is_request(a: Seq<Seq<char>>, r: PushRequest) -> bool {
    &&& args::option_value(a, "--peer"@) == Some(r.peer@)
    &&& args::option_value(a, "--key"@) == Some(r.key_path@)
    &&& args::option_value(a, "--peer-key"@) == Some(r.peer_key@)
    &&& match r.source {
        PushSource::Text(t) => args::option_value(a, "--text"@) == Some(t@) && args::option_value(
            a,
            "--file"@,
        ) is None,
        PushSource::File(p) => args::option_value(a, "--file"@) == Some(p@) && args::option_value(
            a,
            "--text"@,
        ) is None,
    }
}

/// What is wrong with the arguments of a push, the first thing if there are several.
pub open spec fn request_fault(a: Seq<Seq<char>>) -> Option<PushError> {
    if args::option_value(a, "--peer"@) is None {
        Some(PushError::MissingPeer)
    } else if args::option_value(a, "--key"@) is None {
        Some(PushError::MissingKey)
    } else if args::option_value(a, "--peer-key"@) is None {
        Some(PushError::MissingPeerKey)
    } else if args::option_value(a, "--text"@) is Some && args::option_value(a, "--file"@) is Some {
        Some(PushError::TextAndFile)
    } else if args::option_value(a, "--text"@) is None && args::option_value(a, "--file"@) is None {
        Some(PushError::NoContent)
    } else {
        None
    }
}

/// Reads the arguments of a push.
pub fn push_request(args: &[String]) -> (r: Result<PushRequest, PushError>)
    ensures
        match r {
            Ok(request) => request_fault(args::views(args@)) is None && is_request(
                args::views(args@),
                request,
            ),
            Err(e) => request_fault(args::views(args@)) == Some(e),
        },
{
    let peer = match args::opt(args, "--peer") {
        Some(s) => s,
        None => {
            return Err(PushError::MissingPeer);
        },
    };
    let key_path = match args::opt(args, "--key") {
        Some(s) => s,
        None => {
            return Err(PushError::MissingKey);
        },
    };
    let peer_key = match args::opt(args, "--peer-key") {
        Some(s) => s,
        None => {
            return Err(PushError::MissingPeerKey);
        },
    };
    let text_arg = args::opt(args, "--text");
    let file_arg = args::opt(args, "--file");
    let source = match (text_arg, file_arg) {
        (Some(t), None) => PushSource::Text(t),
        (None, Some(p)) => PushSource::File(p),
        (Some(_), Some(_)) => {
            return Err(PushError::TextAndFile);
        },
        (None, None) => {
            return Err(PushError::NoContent);
        },
    };
    Ok(PushRequest { peer, key_path, peer_key, source })
}

/// The data of a `--text` push.
pub fn text_data(content: &str) -> (data: Vec<u8>)
    ensures
        data@ == encode_utf8(content@),
{
    slice_to_vec(content.as_bytes())
}

/// Whether `r` is what comes of the bytes of a file.
pub open spec fn is_file_data(buffer: Seq<u8>, r: Result<Seq<u8>, PushError>) -> bool {
    match r {
        Ok(data) => data == buffer && (buffer.len() > MAX_TOTAL_LEN || valid_utf8(buffer)),
        Err(e) => e == PushError::FileNotUtf8 && buffer.len() <= MAX_TOTAL_LEN && !valid_utf8(
            buffer,
        ),
    }
}

/// The data of a `--file` push: what was read, if it is UTF-8. What is above [`MAX_TOTAL_LEN`] is
/// passed on as it is, to be refused with an abort.
pub fn file_data(buffer: Vec<u8>) -> (r: Result<Vec<u8>, PushError>)
    ensures
        match r {
            Ok(data) => data@ == buffer@ && (buffer@.len() > MAX_TOTAL_LEN || valid_utf8(buffer@)),
            Err(PushError::FileNotUtf8) => buffer@.len() <= MAX_TOTAL_LEN && !valid_utf8(buffer@),
            Err(_) => false,
        },
        is_file_data(
            buffer@,
            match r {
                Ok(data) => Ok(data@),
                Err(e) => Err(e),
            },
        ),
{
    if buffer.len() > MAX_TOTAL_LEN {
        return Ok(buffer);
    }
    let copy = slice_to_vec(buffer.as_slice());
    match String::from_utf8(copy) {
        Ok(_) => Ok(buffer),
        Err(_) => Err(PushError::FileNotUtf8),
    }
}

/// Whether `r` is what comes of a private key and the text of the peer's key.
pub open spec fn are_keys(
    local_private: Seq<u8>,
    peer_key: Seq<char>,
    r: Result<Seq<u8>, PushError>,
) -> bool {
    match r {
        Ok(key) => local_private.len() == KEY_LEN && key.len() == KEY_LEN && hex::unhexed(
            encode_utf8(peer_key),
        ) == Some(key),
        Err(PushError::BadPrivateKey) => local_private.len() != KEY_LEN,
        Err(PushError::BadPeerKey) => local_private.len() == KEY_LEN && !(hex::unhexed(
            encode_utf8(peer_key),
        ) matches Some(key) && key.len() == KEY_LEN),
        Err(_) => false,
    }
}

/// The peer's public key, once both keys have been found to be of the right length.
pub fn push_keys(local_private: &[u8], peer_key: &str) -> (r: Result<Vec<u8>, PushError>)
    ensures
        match r {
            Ok(key) => local_private@.len() == KEY_LEN && key@.len() == KEY_LEN && hex::unhexed(
                encode_utf8(peer_key@),
            ) == Some(key@),
            Err(PushError::BadPrivateKey) => local_private@.len() != KEY_LEN,
            Err(PushError::BadPeerKey) => local_private@.len() == KEY_LEN && !(hex::unhexed(
                encode_utf8(peer_key@),
            ) matches Some(key) && key.len() == KEY_LEN),
            Err(_) => false,
        },
        are_keys(
            local_private@,
            peer_key@,
            match r {
                Ok(key) => Ok(key@),
                Err(e) => Err(e),
            },
        ),
{
    if local_private.len() != KEY_LEN {
        return Err(PushError::BadPrivateKey);
    }
    match hex::from_hex(peer_key) {
        Some(key) => if key.len() == KEY_LEN {
            Ok(key)
        } else {
            Err(PushError::BadPeerKey)
        },
        None => Err(PushError::BadPeerKey),
    }
}

/// The address to connect to for a peer.
pub open spec fn connect_addr(peer: Seq<char>) -> Seq<char> {
    if address::names_port(peer) {
        peer
    } else if address::is_bare_ipv6(peer) {
        "["@ + peer + "]"@ + PORT_SUFFIX@
    } else {
        peer + PORT_SUFFIX@
    }
}

/// The address to connect to: an address that names no port gets the default one, an IPv6 address
/// by itself being put in brackets first.
pub fn peer_addr(peer: &str) -> (addr: String)
    ensures
        addr@ == connect_addr(peer@),
{
    let chars = text::chars_of(peer);
    if address::has_port(chars.as_slice()) {
        peer.to_owned()
    } else if address::bare_ipv6(chars.as_slice()) {
        let bracketed = text::join(text::join("[", peer).as_str(), "]");
        text::join(bracketed.as_str(), PORT_SUFFIX)
    } else {
        text::join(peer, PORT_SUFFIX)
    }
}

/// How many chunks `len` bytes make.
pub open spec fn chunk_count(len: nat) -> nat {
    (len + MAX_CHUNK_LEN - 1) as nat / MAX_CHUNK_LEN as nat
}

/// The bytes of the `i`-th chunk: [`MAX_CHUNK_LEN`] of them, fewer in the last.
pub open spec fn chunk_bytes(data: Seq<u8>, i: int) -> Seq<u8> {
    let from = i * MAX_CHUNK_LEN;
    let to = if from + MAX_CHUNK_LEN <= data.len() {
        from + MAX_CHUNK_LEN
    } else {
        data.len() as int
    };
    data.subrange(from, to)
}

/// The message that carries the `i`-th chunk.
pub open spec fn chunk_msg(data: Seq<u8>, i: int) -> MsgView {
    MsgView::Chunk {
        transfer_id: PUSH_TRANSFER_ID,
        seq: i as u32,
        payload: chunk_bytes(data, i),
    }
}

/// The message that announces the data.
pub open spec fn offer_msg(data: Seq<u8>) -> MsgView {
    MsgView::Offer {
        transfer_id: PUSH_TRANSFER_ID,
        mime: SUPPORTED_MIME@,
        total_len: data.len() as u64,
    }
}

/// The messages that carry some data: an offer, the chunks in order, a completion.
pub open spec fn transfer_msgs(data: Seq<u8>) -> Seq<MsgView> {
    seq![offer_msg(data)] + Seq::new(chunk_count(data.len()), |i: int| chunk_msg(data, i))
        + seq![MsgView::Complete { transfer_id: PUSH_TRANSFER_ID }]
}

/// Messages as contracts speak of them.
pub open spec fn msg_views(msgs: Seq<ClipboardMsg>) -> Seq<MsgView> {
    msgs.map_values(|m: ClipboardMsg| m@)
}

/// What a push sends.
#[derive(Debug, Clone, PartialEq, Eq)]
pub enum PushPlan {
    /// These messages, so many of which are chunks.
    Send { messages: Vec<ClipboardMsg>, chunks: usize },
    /// This message only: the data is too long.
    Refuse { abort: ClipboardMsg },
}

/// The messages of a plan.
pub open spec fn planned(plan: PushPlan) -> Seq<MsgView> {
    match plan {
        PushPlan::Send { messages, chunks } => msg_views(messages@),
        PushPlan::Refuse { abort } => seq![abort@],
    }
}

/// The messages that are sent for some data.
pub open spec fn sent_for(data: Seq<u8>) -> Seq<MsgView> {
    if data.len() <= MAX_TOTAL_LEN {
        transfer_msgs(data)
    } else {
        seq![MsgView::Abort { transfer_id: PUSH_TRANSFER_ID, reason: ABORT_TOO_LARGE }]
    }
}

/// What to send for some data: the whole transfer, or an abort above [`MAX_TOTAL_LEN`].
pub fn push_plan(data: &[u8]) -> (plan: PushPlan)
    ensures
        match plan {
            PushPlan::Send { messages, chunks } => data@.len() <= MAX_TOTAL_LEN && msg_views(
                messages@,
            ) == transfer_msgs(data@) && chunks == chunk_count(data@.len()),
            PushPlan::Refuse { abort } => data@.len() > MAX_TOTAL_LEN && abort@ == (
            MsgView::Abort { transfer_id: PUSH_TRANSFER_ID, reason: ABORT_TOO_LARGE }),
        },
        planned(plan) == sent_for(data@),
{
    if data.len() > MAX_TOTAL_LEN {
        return PushPlan::Refuse {
            abort: ClipboardMsg::Abort { transfer_id: PUSH_TRANSFER_ID, reason: ABORT_TOO_LARGE },
        };
    }
    let mut messages: Vec<ClipboardMsg> = Vec::new();
    messages.push(
        ClipboardMsg::Offer {
            transfer_id: PUSH_TRANSFER_ID,
            mime: SUPPORTED_MIME.to_owned(),
            total_len: data.len() as u64,
        },
    );
    let chunks: usize = (data.len() + MAX_CHUNK_LEN - 1) / MAX_CHUNK_LEN;
    let mut i: usize = 0;
    assert(msg_views(messages@) =~= seq![offer_msg(data@)] + Seq::new(
        0,
        |j: int| chunk_msg(data@, j),
    ));
    while i < chunks
        invariant
            data@.len() <= MAX_TOTAL_LEN,
            chunks == chunk_count(data@.len()),
            chunks <= 64,
            i <= chunks,
            msg_views(messages@) == seq![offer_msg(data@)] + Seq::new(
                i as nat,
                |j: int| chunk_msg(data@, j),
            ),
        decreases chunks - i,
    {
        let from: usize = i * MAX_CHUNK_LEN;
        let to: usize = if data.len() - from >= MAX_CHUNK_LEN {
            from + MAX_CHUNK_LEN
        } else {
            data.len()
        };
        let msg = ClipboardMsg::Chunk {
            transfer_id: PUSH_TRANSFER_ID,
            seq: i as u32,
            payload: slice_to_vec(slice_subrange(data, from, to)),
        };
        assert(msg@ == chunk_msg(data@, i as int));
        let ghost before = messages@;
        messages.push(msg);
        assert(msg_views(messages@) =~= msg_views(before).push(chunk_msg(data@, i as int)));
        assert(msg_views(messages@) =~= seq![offer_msg(data@)] + Seq::new(
            (i + 1) as nat,
            |j: int| chunk_msg(data@, j),
        ));
        i = i + 1;
    }
    let ghost before = messages@;
    messages.push(ClipboardMsg::Complete { transfer_id: PUSH_TRANSFER_ID });
    assert(msg_views(messages@) =~= msg_views(before).push(
        MsgView::Complete { transfer_id: PUSH_TRANSFER_ID },
    ));
    assert(msg_views(messages@) =~= transfer_msgs(data@));
    PushPlan::Send { messages, chunks }
}

/// A host and a port, with a colon between them, stay as they are.
pub proof fn law_host_and_port_stay(host: Seq<char>, port: Seq<char>)
    requires
        !host.contains(':'),
        !host.contains(']'),
        !port.contains(':'),
        !port.contains(']'),
    ensures
        connect_addr(host + seq![':'] + port) == host + seq![':'] + port,
{
    let s = host + seq![':'] + port;
    lemma_one_colon(host, port);
    assert(!s.contains(']'));
    assert(s[host.len() as int] == ':');
    text::law_count_tells_what_is_there(s, ']');
    text::law_count_tells_what_is_there(s, ':');
}

/// A text with one colon is no IPv6 address.
proof fn lemma_one_colon(host: Seq<char>, port: Seq<char>)
    requires
        !host.contains(':'),
        !port.contains(':'),
    ensures
        !address::is_ipv6(host + seq![':'] + port),
{
    let s = host + seq![':'] + port;
    assert forall|i: int| 0 <= i < s.len() && i != host.len() implies #[trigger] s[i] != ':' by {
        if i < host.len() {
            assert(host.contains(host[i]));
        } else {
            assert(port.contains(port[i - host.len() - 1]));
        }
    }
    if address::is_ipv6(s) {
        address::law_ipv6_is_groups(s);
        if exists|groups: Seq<Seq<char>>| #[trigger]
            address::are_groups(groups) && groups.len() == 8 && s == text::joined(groups, ':') {
            let g = choose|groups: Seq<Seq<char>>| #[trigger]
                address::are_groups(groups) && groups.len() == 8 && s == text::joined(groups, ':');
            let rest = g.drop_first();
            let r = text::joined(rest, ':');
            assert(s == g[0] + seq![':'] + r);
            assert(r == rest[0] + seq![':'] + text::joined(rest.drop_first(), ':'));
            assert(s[g[0].len() as int] == ':');
            assert(r[rest[0].len() as int] == ':');
            assert(s[g[0].len() as int + 1 + rest[0].len()] == ':');
        } else {
            let (left, right) = choose|left: Seq<Seq<char>>, right: Seq<Seq<char>>| #[trigger]
                address::are_groups(left) && #[trigger] address::are_groups(right) && left.len()
                    + right.len() <= 7 && s == text::joined(left, ':') + seq![':', ':']
                    + text::joined(right, ':');
            let k = text::joined(left, ':').len() as int;
            assert(s[k] == ':' && s[k + 1] == ':');
        }
    }
}

/// A host without a colon gets the default port.
pub proof fn law_host_gets_the_default_port(host: Seq<char>)
    requires
        !host.contains(':'),
    ensures
        connect_addr(host) == host + ":9022"@,
{
    text::law_count_tells_what_is_there(host, ':');
    text::law_count_tells_what_is_there(host, ']');
    let tail = text::after_last(host, ']');
    text::law_count_tells_what_is_there(tail, ':');
    address::lemma_after_last_is_the_end(host, ']');
    if tail.contains(':') {
        let i = choose|i: int| 0 <= i < tail.len() && tail[i] == ':';
        assert(host.skip(host.len() - tail.len())[i] == ':');
        assert(host[host.len() - tail.len() + i] == ':');
    }
    if address::is_ipv6(host) {
        address::law_ipv6_has_colons_and_no_brackets(host);
    }
}

/// An address in brackets gets the default port unless a colon follows the closing one.
pub proof fn law_brackets_end_the_address(inner: Seq<char>, rest: Seq<char>)
    requires
        !rest.contains(']'),
    ensures
        ({
            let s = inner + seq![']'] + rest;
            connect_addr(s) == if rest.contains(':') {
                s
            } else {
                s + ":9022"@
            }
        }),
{
    let s = inner + seq![']'] + rest;
    text::law_after_last_is_behind_the_last(inner, ']', rest);
    text::law_count_tells_what_is_there(s, ']');
    text::law_count_tells_what_is_there(rest, ':');
    assert(s[inner.len() as int] == ']');
    if address::is_ipv6(s) {
        address::law_ipv6_has_colons_and_no_brackets(s);
    }
}

/// An IPv6 address with a port behind it stays as it is.
pub proof fn law_ipv6_and_port_stay(host: Seq<char>, port: Seq<char>)
    requires
        address::is_ipv6(host),
        address::is_decimal(port),
    ensures
        connect_addr(host + seq![':'] + port) == host + seq![':'] + port,
{
    let s = host + seq![':'] + port;
    address::law_ipv6_and_port_is_both(s, host, port);
    address::law_ipv6_has_colons_and_no_brackets(host);
    assert(s[host.len() as int] == ':');
    assert(!s.contains(']')) by {
        assert forall|i: int| 0 <= i < s.len() implies #[trigger] s[i] != ']' by {
            if i < host.len() {
                assert(host.contains(host[i]));
            } else if i > host.len() {
                assert(port[i - host.len() - 1] == s[i]);
            }
        }
    }
    text::law_count_tells_what_is_there(s, ']');
    text::law_count_tells_what_is_there(s, ':');
}

/// An IPv6 address from which no port can be split off is put in brackets and gets the default
/// port.
pub proof fn law_bare_ipv6_gets_brackets(s: Seq<char>)
    requires
        address::is_ipv6(s),
        forall|h: Seq<char>, p: Seq<char>| #[trigger]
            address::is_ipv6(h) && #[trigger] address::is_decimal(p) ==> s != h + seq![':'] + p,
    ensures
        connect_addr(s) == "["@ + s + "]:9022"@,
{
    address::law_ipv6_and_port_is_both(s, s, s);
    address::law_ipv6_has_colons_and_no_brackets(s);
    text::law_count_tells_what_is_there(s, ']');
    reveal_strlit("]:9022");
    reveal_strlit("]");
    reveal_strlit(":9022");
    assert("]:9022"@ =~= "]"@ + ":9022"@);
    assert("["@ + s + "]"@ + ":9022"@ =~= "["@ + s + "]:9022"@);
}

/// Anything else with a colon stays as it is.
pub proof fn law_other_colons_stay(s: Seq<char>)
    requires
        s.contains(':'),
        !s.contains(']'),
        !address::is_ipv6(s),
    ensures
        connect_addr(s) == s,
{
    text::law_count_tells_what_is_there(s, ']');
    text::law_count_tells_what_is_there(s, ':');
}

/// The messages of a push: an offer of all its bytes as text, then chunks of 16 KiB each but for
/// the last, numbered from 0, which hold the bytes in order and none twice, then the completion.
pub proof fn law_push_in_pieces(data: Seq<u8>)
    requires
        data.len() <= 1024 * 1024,
    ensures
        ({
            let msgs = transfer_msgs(data);
            let n = msgs.len() - 2;
            let size: int = 16384;
            &&& msgs.len() >= 2
            &&& (n - 1) * size < data.len() <= n * size || (n == 0 && data.len() == 0)
            &&& msgs[0] == (MsgView::Offer {
                transfer_id: 1,
                mime: "text/plain;charset=utf-8"@,
                total_len: data.len() as u64,
            })
            &&& forall|i: int|
                0 <= i < n - 1 ==> #[trigger] msgs[i + 1] == (MsgView::Chunk {
                    transfer_id: 1,
                    seq: i as u32,
                    payload: data.subrange(i * size, (i + 1) * size),
                })
            &&& n > 0 ==> msgs[n] == (MsgView::Chunk {
                transfer_id: 1,
                seq: (n - 1) as u32,
                payload: data.skip((n - 1) * size),
            })
            &&& msgs.last() == (MsgView::Complete { transfer_id: 1 })
        }),
{
    let msgs = transfer_msgs(data);
    let n = msgs.len() - 2;
    let size: int = 16384;
    assert(n == chunk_count(data.len()));
    assert forall|i: int| 0 <= i < n - 1 implies #[trigger] msgs[i + 1] == (MsgView::Chunk {
        transfer_id: 1,
        seq: i as u32,
        payload: data.subrange(i * size, (i + 1) * size),
    }) by {
        assert(msgs[i + 1] == chunk_msg(data, i));
        assert((i + 1) * size <= data.len());
        assert(chunk_bytes(data, i) =~= data.subrange(i * size, (i + 1) * size));
    }
    if n > 0 {
        assert(msgs[n] == chunk_msg(data, n - 1));
        assert(chunk_bytes(data, n - 1) =~= data.skip((n - 1) * size));
    }
}

/// A push is asked for in full exactly if it names a peer, a key and the peer's key, and exactly
/// one of a text and a file. The first of these that is missing is the fault.
pub proof fn law_push_needs_what_it_names(a: Seq<Seq<char>>)
    ensures
        ({
            let given = |name: Seq<char>| args::option_value(a, name) is Some;
            &&& request_fault(a) is None <==> given("--peer"@) && given("--key"@) && given(
                "--peer-key"@,
            ) && given("--text"@) != given("--file"@)
            &&& request_fault(a) == Some(PushError::MissingPeer) <==> !given("--peer"@)
            &&& request_fault(a) == Some(PushError::MissingKey) <==> given("--peer"@) && !given(
                "--key"@,
            )
            &&& request_fault(a) == Some(PushError::MissingPeerKey) <==> given("--peer"@) && given(
                "--key"@,
            ) && !given("--peer-key"@)
            &&& request_fault(a) == Some(PushError::TextAndFile) ==> given("--text"@) && given(
                "--file"@,
            )
            &&& request_fault(a) == Some(PushError::NoContent) ==> !given("--text"@) && !given(
                "--file"@,
            )
        }),
{
}

/// A request says what the arguments say.
pub proof fn law_request_says_what_was_asked(a: Seq<Seq<char>>, r: PushRequest)
    requires
        is_request(a, r),
    ensures
        args::option_value(a, "--peer"@) == Some(r.peer@),
        args::option_value(a, "--key"@) == Some(r.key_path@),
        args::option_value(a, "--peer-key"@) == Some(r.peer_key@),
        r.source matches PushSource::Text(t) ==> args::option_value(a, "--text"@) == Some(t@),
        r.source matches PushSource::File(p) ==> args::option_value(a, "--file"@) == Some(p@),
        r.source is Text <==> args::option_value(a, "--file"@) is None,
{
}

/// Data above 1 MiB is answered with an abort alone: no offer and no chunk. Any other is sent as it
/// is, in as many messages as it takes.
pub proof fn law_too_much_is_aborted(data: Seq<u8>)
    ensures
        data.len() > 1024 * 1024 ==> sent_for(data) == seq![
            MsgView::Abort { transfer_id: 1, reason: 1 },
        ],
        data.len() <= 1024 * 1024 ==> sent_for(data) == transfer_msgs(data),
{
}

/// A file is pushed as it is, whether it is text of at most 1 MiB or so long that it is aborted;
/// only one that is within the limit and not UTF-8 is refused beforehand.
pub proof fn law_file_is_pushed_as_it_is(buffer: Seq<u8>, r: Result<Seq<u8>, PushError>)
    requires
        is_file_data(buffer, r),
    ensures
        r matches Ok(data) ==> data == buffer,
        r is Err <==> buffer.len() <= 1024 * 1024 && !valid_utf8(buffer),
        r matches Err(e) ==> e == PushError::FileNotUtf8,
{
}

/// The peer's key is accepted exactly if both keys are of 32 bytes, the peer's in 64 hexadecimal
/// digits; it is then the key whose text this is, up to the case of its letters. The private key
/// is looked at first.
pub proof fn law_keys_are_of_the_right_length(
    local_private: Seq<u8>,
    peer_key: Seq<char>,
    r: Result<Seq<u8>, PushError>,
)
    requires
        are_keys(local_private, peer_key, r),
    ensures
        r is Ok <==> local_private.len() == 32 && peer_key.len() == 64 && forall|i: int|
            0 <= i < peer_key.len() ==> hex::is_digit(#[trigger] peer_key[i]),
        r matches Ok(key) ==> hex::hexed(key) == text::lowered(peer_key),
        r matches Err(e) ==> e == (if local_private.len() != 32 {
            PushError::BadPrivateKey
        } else {
            PushError::BadPeerKey
        }),
{
    hex::law_only_digits_are_read(peer_key);
}

} // verus!
