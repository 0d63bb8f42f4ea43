//! Making a station's key pair: the private key for its own file, the public key as text for the
//! allow lists of others.

use vstd::prelude::*;
use vstd::string::*;
use vstd::utf8::*;
use crate::allowlist;
use crate::hex;
use crate::noise;
use crate::noise::{KEY_LEN, NOISE_PARAMS};
use crate::text;

verus! {

/// What the path of the public key's file ends with, after the path of the private key's.
pub const PUBLIC_SUFFIX: &'static str = ".pub";

/// What ends the text in the public key's file.
pub const LINE_END: &'static str = "\n";

/// Why there is no key pair.
#[derive(Debug)]
pub enum GenkeyError {
    /// The Noise layer refused.
    Noise(snow::Error),
    /// The private key is not of the right length.
    UnexpectedLength,
}

/// The files of a key pair.
#[derive(Debug, Clone, PartialEq, Eq)]
pub struct KeyFiles {
    pub private_path: String,
    pub private: Vec<u8>,
    pub public_path: String,
    /// The public key in hexadecimal.
    pub public_hex: String,
    /// What the public key's file holds.
    pub public_content: String,
}

/// Whether the files are those of a key pair whose private key goes to `out`.
pub open spec fn are_files(
    files: KeyFiles,
    out: Seq<char>,
    private: Seq<u8>,
    public: Seq<u8>,
) -> bool {
    &&& files.private_path@ == out
    &&& files.private@ == private
    &&& files.public_path@ == out + PUBLIC_SUFFIX@
    &&& files.public_hex@ == hex::hexed(public)
    &&& files.public_content@ == hex::hexed(public) + LINE_END@
}

/// The files of a key pair whose private key goes to `out`.
pub fn key_files(out: &str, private: Vec<u8>, public: &[u8]) -> (r: Option<KeyFiles>)
    ensures
        match r {
            Some(files) => private@.len() == KEY_LEN && are_files(
                files,
                out@,
                private@,
                public@,
            ),
            None => private@.len() != KEY_LEN,
        },
{
    if private.len() != KEY_LEN {
        return None;
    }
    let public_hex = hex::to_hex(public);
    let public_content = text::join(public_hex.as_str(), LINE_END);
    Some(
        KeyFiles {
            private_path: out.to_owned(),
            private,
            public_path: text::join(out, PUBLIC_SUFFIX),
            public_hex,
            public_content,
        },
    )
}

/// Makes a key pair, of 32 bytes each. Which one is left to chance; the public key is the one that
/// belongs to the private key.
pub fn genkey(out: &str) -> (r: Result<KeyFiles, GenkeyError>)
    ensures
        r matches Ok(files) && files.private@.len() == KEY_LEN && noise::public_key_of(
            files.private@,
        ).len() == KEY_LEN && are_files(
            files,
            out@,
            files.private@,
            noise::public_key_of(files.private@),
        ) && hex::unhexed(encode_utf8(files.public_hex@)) == Some(
            noise::public_key_of(files.private@),
        ),
{
    let (private, public) = match noise::keypair(NOISE_PARAMS) {
        Ok(pair) => pair,
        Err(e) => {
            return Err(GenkeyError::Noise(e));
        },
    };
    proof {
        hex::law_from_hex_inverts_to_hex(public@);
    }
    match key_files(out, private, public.as_slice()) {
        Some(files) => Ok(files),
        None => Err(GenkeyError::UnexpectedLength),
    }
}

/// A public key's file can be put into an allow file as it is: its lines are in order, and the
/// one key on them is that public key.
pub proof fn law_public_file_is_an_allow_file(public: Seq<u8>, key: Seq<char>)
    requires
        public.len() == KEY_LEN,
    ensures
        ({
            let lines = text::lines(hex::hexed(public) + LINE_END@);
            &&& allowlist::lines_ok(lines, lines.len() as int)
            &&& allowlist::keys_on(lines).contains(key) <==> key == hex::hexed(public)
        }),
{
    let line = hex::hexed(public);
    let content = line + LINE_END@;
    let none = Seq::<char>::empty();
    reveal_strlit("\n");
    assert(LINE_END@ =~= seq!['\n']);
    lemma_hexed_is_bare(public);
    text::lemma_count_before(content, '\n', line.len() as int);
    assert(content.take(line.len() as int) =~= line);
    assert(content.skip(line.len() as int + 1) =~= none);
    reveal_with_fuel(text::pieces, 2);
    let lines = text::lines(content);
    assert(lines =~= seq![line, none]);
    text::lemma_count_before(line, '#', line.len() as int);
    assert(line.take(line.len() as int) =~= line);
    assert(allowlist::entry(line) =~= line);
    assert(none.take(0) =~= none);
    assert(allowlist::entry(none) =~= none);
    assert(text::lowered(line) =~= line);
    allowlist::law_listed_peer_is_authorized(lines, 0, public);
    allowlist::law_list_holds_the_lines(lines, key);
}

/// The text of some bytes has no line feed, no `#`, no white space and no capital letter.
proof fn lemma_hexed_is_bare(bytes: Seq<u8>)
    ensures
        forall|i: int|
            0 <= i < hex::hexed(bytes).len() ==> {
                let c = #[trigger] hex::hexed(bytes)[i];
                c != '\n' && c != '#' && !text::is_white(c) && text::lower(c) == c
            },
{
}

/// The files of a key pair hold the pair: the private key as it is, and the public key as text that
/// reads back, byte for byte and in order, as that key.
pub proof fn law_files_hold_the_pair(
    files: KeyFiles,
    out: Seq<char>,
    private: Seq<u8>,
    public: Seq<u8>,
)
    requires
        are_files(files, out, private, public),
    ensures
        files.private_path@ == out,
        files.private@ == private,
        files.public_path@ == out + ".pub"@,
        hex::unhexed(encode_utf8(files.public_hex@)) == Some(public),
        files.public_hex@.len() == 2 * public.len(),
        forall|i: int|
            0 <= i < files.public_hex@.len() ==> "0123456789abcdef"@.contains(
                #[trigger] files.public_hex@[i],
            ),
        files.public_content@ == files.public_hex@.push('\n'),
{
    hex::law_from_hex_inverts_to_hex(public);
    reveal_strlit("\n");
    reveal_strlit("0123456789abcdef");
    assert(LINE_END@ =~= seq!['\n']);
    assert(files.public_content@ =~= files.public_hex@.push('\n'));
    let h = files.public_hex@;
    assert forall|i: int| 0 <= i < h.len() implies "0123456789abcdef"@.contains(
        #[trigger] h[i],
    ) by {
        let d = if i % 2 == 0 {
            public[i / 2] as int / 16
        } else {
            public[i / 2] as int % 16
        };
        assert(0 <= d < 16);
        assert("0123456789abcdef"@[d] == h[i]);
    }
}

/// An allow list made of the public key's file lets in exactly the station that has this key.
pub proof fn law_public_file_lets_its_station_in(
    files: KeyFiles,
    out: Seq<char>,
    private: Seq<u8>,
    public: Seq<u8>,
    other: Seq<u8>,
)
    requires
        are_files(files, out, private, public),
        public.len() == KEY_LEN,
    ensures
        ({
            let lines = text::lines(files.public_content@);
            &&& allowlist::lines_ok(lines, lines.len() as int)
            &&& allowlist::keys_on(lines).contains(hex::hexed(other)) <==> other == public
        }),
{
    law_public_file_is_an_allow_file(public, hex::hexed(other));
    if hex::hexed(other) == hex::hexed(public) {
        hex::law_to_hex_is_injective(other, public);
    }
}

} // verus!
