//! The strict allow list: which public keys may open a clipboard connection.
//!
//! An allow file has one key per line, in hexadecimal; what follows a `#` is a comment, and a
//! line without a key is skipped. Keys are kept in lower case. A service with an empty list does
//! not start.

use vstd::hash_set::StringHashSet;
use vstd::prelude::*;
use vstd::slice::*;
use vstd::string::*;
use vstd::utf8::*;
use crate::args;
use crate::hex;
use crate::noise::KEY_LEN;
use crate::text;

verus! {

/// Whether a text is a public key in hexadecimal.
pub open spec fn is_key(entry: Seq<char>) -> bool {
    hex::unhexed(encode_utf8(entry)) matches Some(key) && key.len() == KEY_LEN
}

/// The entry on a line: what stands before a comment, without the white space around it.
pub open spec fn entry(line: Seq<char>) -> Seq<char> {
    text::trimmed(line.take(text::count_before(line, '#') as int))
}

/// Whether a line is blank but for comments, or holds a key.
pub open spec fn line_ok(line: Seq<char>) -> bool {
    entry(line).len() == 0 || is_key(entry(line))
}

/// The keys on some lines, in lower case.
pub open spec fn keys_on(lines: Seq<Seq<char>>) -> Set<Seq<char>>
    decreases lines.len(),
{
    if lines.len() == 0 {
        Set::empty()
    } else if entry(lines.last()).len() == 0 {
        keys_on(lines.drop_last())
    } else {
        keys_on(lines.drop_last()).insert(text::lowered(entry(lines.last())))
    }
}

/// Some keys, in lower case.
pub open spec fn keys_of(keys: Seq<Seq<char>>) -> Set<Seq<char>>
    decreases keys.len(),
{
    if keys.len() == 0 {
        Set::empty()
    } else {
        keys_of(keys.drop_last()).insert(text::lowered(keys.last()))
    }
}

/// Whether the first `n` lines are all in order.
pub open spec fn lines_ok(lines: Seq<Seq<char>>, n: int) -> bool {
    forall|m: int| 0 <= m < n ==> line_ok(#[trigger] lines[m])
}

/// Whether the first `n` texts are all keys.
pub open spec fn keys_ok(keys: Seq<Seq<char>>, n: int) -> bool {
    forall|m: int| 0 <= m < n ==> is_key(#[trigger] keys[m])
}

/// Why there is no allow list.
#[derive(Debug, Clone, PartialEq, Eq)]
pub enum AllowError {
    /// The line of this number, counted from 1, is not in order.
    BadLine(usize),
    /// The key at this place, counted from 0, among those given by themselves is none.
    BadKey(usize),
    /// There is no key at all.
    Empty,
}

/// The keys that may connect.
pub struct AllowList {
    keys: StringHashSet,
}

impl View for AllowList {
    type V = Set<Seq<char>>;

    closed spec fn view(&self) -> Set<Seq<char>> {
        self.keys@
    }
}

fn entry_of(line: &[char]) -> (s: String)
    ensures
        s@ == entry(line@),
{
    let n: usize = text::find_char(line, '#');
    let kept = slice_subrange(line, 0, n);
    assert(kept@ =~= line@.take(n as int));
    text::string_of(text::trim(kept))
}

fn is_key_text(s: &str) -> (r: bool)
    ensures
        r == is_key(s@),
{
    match hex::from_hex(s) {
        Some(key) => key.len() == KEY_LEN,
        None => false,
    }
}

impl AllowList {
    /// A list without keys.
    pub fn new() -> (r: Self)
        ensures
            r@ == Set::<Seq<char>>::empty(),
    {
        AllowList { keys: StringHashSet::new() }
    }

    /// Whether a key, as text, is on the list.
    pub fn contains(&self, key: &str) -> (r: bool)
        ensures
            r == self@.contains(key@),
    {
        self.keys.contains(key)
    }

    /// How many keys are on the list.
    pub fn len(&self) -> (n: usize)
        ensures
            n == self@.len(),
    {
        self.keys.len()
    }

    /// Whether the list has no key.
    pub fn is_empty(&self) -> (r: bool)
        ensures
            r == (self@ == Set::<Seq<char>>::empty()),
    {
        self.keys.is_empty()
    }

    /// Adds the keys of an allow file. The first line that is not in order ends it.
    pub fn add_file(&mut self, file: &str) -> (r: Result<(), AllowError>)
        ensures
            ({
                let lines = text::lines(file@);
                match r {
                    Ok(_) => lines_ok(lines, lines.len() as int) && final(self)@ == old(self)@.union(
                        keys_on(lines),
                    ),
                    Err(AllowError::BadLine(n)) => 1 <= n <= lines.len() && lines_ok(lines, n - 1)
                        && !line_ok(lines[n - 1]) && final(self)@ == old(self)@.union(
                        keys_on(lines.take(n - 1)),
                    ),
                    Err(_) => false,
                }
            }),
    {
        let lines = text::split_lines(text::chars_of(file).as_slice());
        let ghost all = text::lines(file@);
        let mut i: usize = 0;
        assert(self@ =~= old(self)@.union(keys_on(all.take(0))));
        while i < lines.len()
            invariant
                all == text::lines(file@),
                lines@.map_values(|v: Vec<char>| v@) == all,
                i <= lines@.len(),
                lines_ok(all, i as int),
                self@ == old(self)@.union(keys_on(all.take(i as int))),
            decreases lines@.len() - i,
        {
            assert(all[i as int] == lines@[i as int]@);
            assert(all.take(i + 1).drop_last() =~= all.take(i as int));
            let e = entry_of(lines[i].as_slice());
            if !e.as_str().is_empty() {
                if !is_key_text(e.as_str()) {
                    return Err(AllowError::BadLine(i + 1));
                }
                self.keys.insert(text::to_lower(e.as_str()));
            }
            assert(self@ =~= old(self)@.union(keys_on(all.take(i + 1))));
            i = i + 1;
        }
        assert(all.take(i as int) =~= all);
        Ok(())
    }

    /// Adds keys given by themselves. The first that is no key ends it.
    pub fn add_keys(&mut self, keys: &[String]) -> (r: Result<(), AllowError>)
        ensures
            ({
                let all = args::views(keys@);
                match r {
                    Ok(_) => keys_ok(all, all.len() as int) && final(self)@ == old(self)@.union(
                        keys_of(all),
                    ),
                    Err(AllowError::BadKey(n)) => n < all.len() && keys_ok(all, n as int) && !is_key(
                        all[n as int],
                    ) && final(self)@ == old(self)@.union(keys_of(all.take(n as int))),
                    Err(_) => false,
                }
            }),
    {
        let ghost all = args::views(keys@);
        let mut i: usize = 0;
        assert(self@ =~= old(self)@.union(keys_of(all.take(0))));
        while i < keys.len()
            invariant
                all == args::views(keys@),
                i <= keys@.len(),
                keys_ok(all, i as int),
                self@ == old(self)@.union(keys_of(all.take(i as int))),
            decreases keys@.len() - i,
        {
            assert(all[i as int] == keys@[i as int]@);
            assert(all.take(i + 1).drop_last() =~= all.take(i as int));
            if !is_key_text(keys[i].as_str()) {
                return Err(AllowError::BadKey(i));
            }
            self.keys.insert(text::to_lower(keys[i].as_str()));
            assert(self@ =~= old(self)@.union(keys_of(all.take(i + 1))));
            i = i + 1;
        }
        assert(all.take(i as int) =~= all);
        Ok(())
    }

    /// Whether a peer with this public key may connect.
    pub fn authorizes(&self, public_key: &[u8]) -> (r: bool)
        ensures
            r == self@.contains(hex::hexed(public_key@)),
    {
        let key = hex::to_hex(public_key);
        self.contains(key.as_str())
    }
}

/// A key is exactly 64 hexadecimal digits, and in lower case it is the text of the public key that
/// it stands for: what an entry lets in is the peer that has this key.
pub proof fn law_key_is_sixty_four_digits(entry: Seq<char>)
    ensures
        is_key(entry) <==> entry.len() == 64 && forall|i: int|
            0 <= i < entry.len() ==> hex::is_digit(#[trigger] entry[i]),
        is_key(entry) ==> (hex::unhexed(encode_utf8(entry)) matches Some(key) && text::lowered(
            entry,
        ) == hex::hexed(key)),
{
    hex::law_only_digits_are_read(entry);
}

/// Every key on a line is on the list, and nothing else is.
pub proof fn law_list_holds_the_lines(lines: Seq<Seq<char>>, key: Seq<char>)
    ensures
        keys_on(lines).contains(key) <==> exists|i: int|
            0 <= i < lines.len() && entry(#[trigger] lines[i]).len() > 0 && text::lowered(
                entry(lines[i]),
            ) == key,
    decreases lines.len(),
{
    if lines.len() > 0 {
        let front = lines.drop_last();
        law_list_holds_the_lines(front, key);
        if keys_on(front).contains(key) {
            let i = choose|i: int|
                0 <= i < front.len() && entry(#[trigger] front[i]).len() > 0 && text::lowered(
                    entry(front[i]),
                ) == key;
            assert(lines[i] == front[i]);
        }
        if keys_on(lines).contains(key) && !keys_on(front).contains(key) {
            assert(text::lowered(entry(lines[lines.len() - 1])) == key);
        }
        if exists|i: int|
            0 <= i < lines.len() && entry(#[trigger] lines[i]).len() > 0 && text::lowered(
                entry(lines[i]),
            ) == key {
            let i = choose|i: int|
                0 <= i < lines.len() && entry(#[trigger] lines[i]).len() > 0 && text::lowered(
                    entry(lines[i]),
                ) == key;
            if i < front.len() {
                assert(front[i] == lines[i]);
            }
        }
    }
}

/// Every key given by itself is on the list, and nothing else is.
pub proof fn law_list_holds_the_keys(keys: Seq<Seq<char>>, key: Seq<char>)
    ensures
        keys_of(keys).contains(key) <==> exists|i: int|
            0 <= i < keys.len() && text::lowered(#[trigger] keys[i]) == key,
    decreases keys.len(),
{
    if keys.len() > 0 {
        let front = keys.drop_last();
        law_list_holds_the_keys(front, key);
        if keys_of(front).contains(key) {
            let i = choose|i: int|
                0 <= i < front.len() && text::lowered(#[trigger] front[i]) == key;
            assert(keys[i] == front[i]);
        }
        if keys_of(keys).contains(key) && !keys_of(front).contains(key) {
            assert(text::lowered(keys[keys.len() - 1]) == key);
        }
        if exists|i: int| 0 <= i < keys.len() && text::lowered(#[trigger] keys[i]) == key {
            let i = choose|i: int| 0 <= i < keys.len() && text::lowered(#[trigger] keys[i]) == key;
            if i < front.len() {
                assert(front[i] == keys[i]);
            }
        }
    }
}

/// A line that spells out a peer's public key, in letters of either case, is in order and puts
/// the peer on the list.
pub proof fn law_listed_peer_is_authorized(lines: Seq<Seq<char>>, i: int, public_key: Seq<u8>)
    requires
        0 <= i < lines.len(),
        public_key.len() == KEY_LEN,
        text::lowered(entry(lines[i])) == hex::hexed(public_key),
    ensures
        line_ok(lines[i]),
        keys_on(lines).contains(hex::hexed(public_key)),
{
    let e = entry(lines[i]);
    hex::lemma_hexed_is_ascii(public_key);
    assert(text::lowered(e).len() == e.len());
    assert forall|j: int| 0 <= j < e.len() implies '\0' <= #[trigger] e[j] <= '\u{7f}' by {
        assert(text::lowered(e)[j] == text::lower(e[j]));
        assert(hex::hexed(public_key)[j] <= '\u{7f}');
    }
    hex::law_case_does_not_matter(e);
    hex::law_from_hex_inverts_to_hex(public_key);
    law_list_holds_the_lines(lines, hex::hexed(public_key));
}

/// A peer whose public key no line spells out is not on the list.
pub proof fn law_unlisted_peer_is_refused(lines: Seq<Seq<char>>, public_key: Seq<u8>)
    requires
        forall|i: int|
            0 <= i < lines.len() ==> text::lowered(entry(#[trigger] lines[i])) != hex::hexed(
                public_key,
            ),
    ensures
        !keys_on(lines).contains(hex::hexed(public_key)),
{
    law_list_holds_the_lines(lines, hex::hexed(public_key));
}

/// What follows a `#` is a comment, whatever it is and however it is set off: the entry is the one
/// on the line without it.
pub proof fn law_comment_is_no_part_of_the_entry(t: Seq<char>, comment: Seq<char>)
    requires
        !t.contains('#'),
    ensures
        entry(t + seq!['#'] + comment) == entry(t),
        entry(t) == text::trimmed(t),
{
    let line = t + seq!['#'] + comment;
    text::law_count_before_is_the_first(t, '#', comment);
    assert(line.take(t.len() as int) =~= t);
    assert(t.take(t.len() as int) =~= t);
}

/// White space around an entry, and a comment after it, do not matter: the entry is what is left.
/// A line of white space and a comment has an empty entry.
pub proof fn law_entry_stands_by_itself(
    before: Seq<char>,
    k: Seq<char>,
    after: Seq<char>,
    comment: Seq<char>,
)
    requires
        text::is_blank(before),
        text::is_blank(after),
        !k.contains('#'),
        k.len() > 0 ==> !text::is_white(k[0]) && !text::is_white(k.last()),
    ensures
        entry(before + k + after) == k,
        entry(before + k + after + seq!['#'] + comment) == k,
{
    let t = before + k + after;
    assert forall|i: int| 0 <= i < t.len() implies #[trigger] t[i] != '#' by {
        if i < before.len() {
            assert(text::is_white(before[i]));
        } else if i < before.len() + k.len() {
            assert(k.contains(k[i - before.len()]));
        } else {
            assert(text::is_white(after[i - before.len() - k.len()]));
        }
    }
    text::law_trimming_leaves_the_middle(before, k, after);
    law_comment_is_no_part_of_the_entry(t, comment);
}

/// A line is in order exactly if its entry is empty or 64 hexadecimal digits.
pub proof fn law_line_is_empty_or_a_key(line: Seq<char>)
    ensures
        line_ok(line) <==> entry(line).len() == 0 || (entry(line).len() == 64 && forall|i: int|
            0 <= i < entry(line).len() ==> "0123456789abcdefABCDEF"@.contains(
                #[trigger] entry(line)[i],
            )),
{
    let e = entry(line);
    law_key_is_sixty_four_digits(e);
    assert forall|i: int| 0 <= i < e.len() implies hex::is_digit(#[trigger] e[i])
        == "0123456789abcdefABCDEF"@.contains(e[i]) by {
        hex::law_digit_characters(e[i]);
    }
    if line_ok(line) && e.len() > 0 {
        assert forall|i: int| 0 <= i < e.len() implies "0123456789abcdefABCDEF"@.contains(
            #[trigger] e[i],
        ) by {
            assert(hex::is_digit(e[i]));
        }
    }
}

/// Every line up to a place is in order exactly if none of them is out of order; so for keys.
pub proof fn law_all_are_in_order(texts: Seq<Seq<char>>, n: int)
    requires
        0 <= n <= texts.len(),
    ensures
        lines_ok(texts, n) <==> !exists|i: int| 0 <= i < n && !line_ok(#[trigger] texts[i]),
        keys_ok(texts, n) <==> !exists|i: int| 0 <= i < n && !is_key(#[trigger] texts[i]),
{
}

} // verus!
