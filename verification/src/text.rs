//! Strings as sequences of characters: comparison, concatenation, and the few facts about std's
//! `String` that the rest of the library builds on.

use vstd::prelude::*;
use vstd::slice::*;
use vstd::string::*;
use vstd::utf8::*;

verus! {

/// `std::string::FromUtf8Error`, only ever thrown away.
#[verifier::external_type_specification]
#[verifier::external_body]
pub struct ExFromUtf8Error(std::string::FromUtf8Error);

/// `String::from_utf8`: the bytes become a string if and only if they are UTF-8, and the string
/// then holds the characters that they encode.
pub assume_specification[ std::string::String::from_utf8 ](vec: Vec<u8>) -> (r: Result<
    String,
    std::string::FromUtf8Error,
>)
    ensures
        match r {
            Ok(s) => valid_utf8(vec@) && s@ == decode_utf8(vec@),
            Err(_) => !valid_utf8(vec@),
        },
;

/// `String::push`: the character goes to the end of the string.
pub assume_specification[ std::string::String::push ](s: &mut String, c: char)
    ensures
        final(s)@ == old(s)@.push(c),
;

/// Two strings of the same bytes are the same characters.
pub proof fn lemma_encode_utf8_injective(a: Seq<char>, b: Seq<char>)
    requires
        encode_utf8(a) == encode_utf8(b),
    ensures
        a == b,
{
    encode_utf8_decode_utf8(a);
    encode_utf8_decode_utf8(b);
}

/// Whether two byte strings are equal.
pub fn bytes_eq(a: &[u8], b: &[u8]) -> (r: bool)
    ensures
        r == (a@ == b@),
{
    if a.len() != b.len() {
        return false;
    }
    let mut i: usize = 0;
    while i < a.len()
        invariant
            a@.len() == b@.len(),
            i <= a@.len(),
            forall|j: int| 0 <= j < i ==> a@[j] == b@[j],
        decreases a@.len() - i,
    {
        if a[i] != b[i] {
            return false;
        }
        i = i + 1;
    }
    assert(a@ =~= b@);
    true
}

/// Whether two strings are equal.
pub fn str_eq(a: &str, b: &str) -> (r: bool)
    ensures
        r == (a@ == b@),
{
    let r = bytes_eq(a.as_bytes(), b.as_bytes());
    proof {
        if r {
            lemma_encode_utf8_injective(a@, b@);
        }
    }
    r
}

/// The characters of a string.
pub fn chars_of(s: &str) -> (v: Vec<char>)
    ensures
        v@ == s@,
{
    let mut v: Vec<char> = Vec::new();
    for c in it: s.chars()
        invariant
            v@ =~= it.seq().take(it.index() as int),
            it.seq() == s@,
    {
        v.push(c);
    }
    v
}

/// The string of some characters.
pub fn string_of(chars: &[char]) -> (s: String)
    ensures
        s@ == chars@,
{
    let mut s = String::new();
    let mut i: usize = 0;
    while i < chars.len()
        invariant
            i <= chars@.len(),
            s@ =~= chars@.take(i as int),
        decreases chars@.len() - i,
    {
        s.push(chars[i]);
        i = i + 1;
    }
    s
}

/// One string after another.
pub fn join(a: &str, b: &str) -> (s: String)
    ensures
        s@ == a@ + b@,
{
    let mut s = a.to_owned();
    s.append(b);
    s
}

/// White space as Unicode has it.
pub open spec fn is_white(c: char) -> bool {
    let u = c as u32;
    ||| 0x09 <= u <= 0x0d
    ||| u == 0x20
    ||| u == 0x85
    ||| u == 0xa0
    ||| u == 0x1680
    ||| 0x2000 <= u <= 0x200a
    ||| u == 0x2028
    ||| u == 0x2029
    ||| u == 0x202f
    ||| u == 0x205f
    ||| u == 0x3000
}

/// A text without the white space it starts with.
pub open spec fn trimmed_front(s: Seq<char>) -> Seq<char>
    decreases s.len(),
{
    if s.len() > 0 && is_white(s[0]) {
        trimmed_front(s.drop_first())
    } else {
        s
    }
}

/// A text without the white space it ends with.
pub open spec fn trimmed_back(s: Seq<char>) -> Seq<char>
    decreases s.len(),
{
    if s.len() > 0 && is_white(s.last()) {
        trimmed_back(s.drop_last())
    } else {
        s
    }
}

/// A text without the white space around it.
pub open spec fn trimmed(s: Seq<char>) -> Seq<char> {
    trimmed_back(trimmed_front(s))
}

/// How many characters come before the first `c`, all of them if there is none.
pub open spec fn count_before(s: Seq<char>, c: char) -> nat
    decreases s.len(),
{
    if s.len() == 0 || s[0] == c {
        0
    } else {
        1 + count_before(s.drop_first(), c)
    }
}

/// How often a character occurs in a text.
pub open spec fn count_of(s: Seq<char>, c: char) -> nat
    decreases s.len(),
{
    if s.len() == 0 {
        0
    } else if s.last() == c {
        count_of(s.drop_last(), c) + 1
    } else {
        count_of(s.drop_last(), c)
    }
}

/// What follows the last `c` of a text, all of it if there is none.
pub open spec fn after_last(s: Seq<char>, c: char) -> Seq<char>
    decreases s.len(),
{
    if s.len() == 0 || s.last() == c {
        Seq::empty()
    } else {
        after_last(s.drop_last(), c).push(s.last())
    }
}

/// The pieces of a text: what lies between the places where `c` stands.
pub open spec fn pieces(s: Seq<char>, c: char) -> Seq<Seq<char>>
    decreases s.len(),
{
    let n = count_before(s, c) as int;
    if n >= s.len() {
        seq![s]
    } else {
        seq![s.take(n)] + pieces(s.skip(n + 1), c)
    }
}

/// The lines of a text: what lies between its line feeds.
pub open spec fn lines(s: Seq<char>) -> Seq<Seq<char>> {
    pieces(s, '\n')
}

/// The lower-case form of an ASCII letter; any other character stays.
pub open spec fn lower(c: char) -> char {
    if 'A' <= c <= 'Z' {
        (c as u32 + 32) as char
    } else {
        c
    }
}

/// A text with its ASCII letters in lower case.
pub open spec fn lowered(s: Seq<char>) -> Seq<char> {
    s.map_values(|c: char| lower(c))
}

/// Where the first `c` stands is where a scan finds it.
pub proof fn lemma_count_before(s: Seq<char>, c: char, n: int)
    requires
        0 <= n <= s.len(),
        forall|j: int| 0 <= j < n ==> s[j] != c,
        n < s.len() ==> s[n] == c,
    ensures
        count_before(s, c) == n,
    decreases s.len(),
{
    if n > 0 {
        lemma_count_before(s.drop_first(), c, n - 1);
    }
}

fn white(c: char) -> (r: bool)
    ensures
        r == is_white(c),
{
    let u: u32 = c as u32;
    (0x09 <= u && u <= 0x0d) || u == 0x20 || u == 0x85 || u == 0xa0 || u == 0x1680 || (0x2000 <= u
        && u <= 0x200a) || u == 0x2028 || u == 0x2029 || u == 0x202f || u == 0x205f || u == 0x3000
}

/// A text without the white space around it.
pub fn trim(s: &[char]) -> (r: &[char])
    ensures
        r@ == trimmed(s@),
{
    let mut i: usize = 0;
    assert(s@.skip(0) =~= s@);
    while i < s.len() && white(s[i])
        invariant
            i <= s@.len(),
            trimmed_front(s@) == trimmed_front(s@.skip(i as int)),
        decreases s@.len() - i,
    {
        assert(s@.skip(i as int).drop_first() =~= s@.skip(i + 1));
        i = i + 1;
    }
    let ghost front = s@.skip(i as int);
    assert(trimmed_front(s@) == front);
    let mut j: usize = s.len();
    assert(s@.subrange(i as int, j as int) =~= front);
    while i < j && white(s[j - 1])
        invariant
            i <= j <= s@.len(),
            trimmed_back(front) == trimmed_back(s@.subrange(i as int, j as int)),
        decreases j - i,
    {
        assert(s@.subrange(i as int, j as int).drop_last() =~= s@.subrange(i as int, j - 1));
        j = j - 1;
    }
    slice_subrange(s, i, j)
}

/// How many characters come before the first `c`, all of them if there is none.
pub fn find_char(s: &[char], c: char) -> (n: usize)
    ensures
        n == count_before(s@, c),
        n <= s@.len(),
        forall|j: int| 0 <= j < n ==> s@[j] != c,
        n < s@.len() ==> s@[n as int] == c,
{
    let mut n: usize = 0;
    while n < s.len() && s[n] != c
        invariant
            n <= s@.len(),
            forall|j: int| 0 <= j < n ==> s@[j] != c,
        decreases s@.len() - n,
    {
        n = n + 1;
    }
    proof {
        lemma_count_before(s@, c, n as int);
    }
    n
}

/// The pieces of a text: what lies between the places where `c` stands.
pub fn split(s: &[char], c: char) -> (r: Vec<Vec<char>>)
    ensures
        r@.map_values(|v: Vec<char>| v@) == pieces(s@, c),
{
    let mut out: Vec<Vec<char>> = Vec::new();
    let mut at: usize = 0;
    assert(s@.skip(0) =~= s@);
    assert(out@.map_values(|v: Vec<char>| v@) + pieces(s@, c) =~= pieces(s@, c));
    loop
        invariant
            at <= s@.len(),
            pieces(s@, c) == out@.map_values(|v: Vec<char>| v@) + pieces(s@.skip(at as int), c),
        decreases s@.len() - at,
    {
        let rest = slice_subrange(s, at, s.len());
        assert(rest@ =~= s@.skip(at as int));
        let n: usize = find_char(rest, c);
        let ghost before = out@.map_values(|v: Vec<char>| v@);
        let piece = slice_to_vec(slice_subrange(rest, 0, n));
        out.push(piece);
        assert(out@.map_values(|v: Vec<char>| v@) =~= before.push(rest@.take(n as int)));
        if n >= rest.len() {
            assert(rest@.take(n as int) =~= rest@);
            assert(before.push(rest@) =~= before + seq![rest@]);
            return out;
        }
        assert(rest@.skip(n + 1) =~= s@.skip(at + n + 1));
        assert(before + (seq![rest@.take(n as int)] + pieces(rest@.skip(n + 1), c)) =~= before.push(
            rest@.take(n as int),
        ) + pieces(rest@.skip(n + 1), c));
        at = at + n + 1;
    }
}

/// The lines of a text: what lies between its line feeds.
pub fn split_lines(s: &[char]) -> (r: Vec<Vec<char>>)
    ensures
        r@.map_values(|v: Vec<char>| v@) == lines(s@),
{
    split(s, '\n')
}

/// How often a character occurs in a text.
pub fn count_char(s: &[char], c: char) -> (n: usize)
    ensures
        n == count_of(s@, c),
{
    let mut n: usize = 0;
    let mut i: usize = 0;
    while i < s.len()
        invariant
            i <= s@.len(),
            n <= i,
            n == count_of(s@.take(i as int), c),
        decreases s@.len() - i,
    {
        assert(s@.take(i + 1).drop_last() =~= s@.take(i as int));
        if s[i] == c {
            n = n + 1;
        }
        i = i + 1;
    }
    assert(s@.take(i as int) =~= s@);
    n
}

/// Where the text after the last `c` starts, 0 if there is none.
pub fn find_after_last(s: &[char], c: char) -> (n: usize)
    ensures
        n <= s@.len(),
        s@.skip(n as int) == after_last(s@, c),
{
    let mut n: usize = s.len();
    assert(s@.take(n as int) =~= s@);
    assert(after_last(s@, c) + s@.skip(n as int) =~= after_last(s@, c));
    while n > 0 && s[n - 1] != c
        invariant
            n <= s@.len(),
            after_last(s@, c) == after_last(s@.take(n as int), c) + s@.skip(n as int),
        decreases n,
    {
        let ghost head = after_last(s@.take(n - 1), c);
        assert(s@.take(n as int).drop_last() =~= s@.take(n - 1));
        assert(head.push(s@[n - 1]) + s@.skip(n as int) =~= head + s@.skip(n - 1));
        n = n - 1;
    }
    assert(after_last(s@.take(n as int), c) =~= Seq::<char>::empty());
    assert(s@.skip(n as int) =~= after_last(s@, c));
    n
}

/// A text with its ASCII letters in lower case.
pub fn to_lower(s: &str) -> (r: String)
    ensures
        r@ == lowered(s@),
{
    let v = chars_of(s);
    let mut out = String::new();
    let mut i: usize = 0;
    while i < v.len()
        invariant
            v@ == s@,
            i <= v@.len(),
            out@ =~= lowered(s@).take(i as int),
        decreases v@.len() - i,
    {
        let c = v[i];
        if 'A' <= c && c <= 'Z' {
            out.push((c as u8 + 32) as char);
        } else {
            out.push(c);
        }
        i = i + 1;
    }
    out
}

/// Some texts with `c` between each two of them.
pub open spec fn joined(texts: Seq<Seq<char>>, c: char) -> Seq<char>
    decreases texts.len(),
{
    if texts.len() == 0 {
        Seq::empty()
    } else if texts.len() == 1 {
        texts[0]
    } else {
        texts[0] + seq![c] + joined(texts.drop_first(), c)
    }
}

/// Splitting loses nothing: putting `c` back between the pieces gives the text, and no piece holds
/// a `c`. There is always a piece.
pub proof fn law_pieces_join_to_the_text(s: Seq<char>, c: char)
    ensures
        pieces(s, c).len() > 0,
        joined(pieces(s, c), c) == s,
        forall|i: int| 0 <= i < pieces(s, c).len() ==> !(#[trigger] pieces(s, c)[i]).contains(c),
    decreases s.len(),
{
    let n = count_before(s, c) as int;
    lemma_before(s, c);
    if n >= s.len() {
        assert(pieces(s, c) =~= seq![s]);
        assert(s.take(n) =~= s);
    } else {
        let rest = s.skip(n + 1);
        law_pieces_join_to_the_text(rest, c);
        let all = pieces(s, c);
        assert(all.drop_first() =~= pieces(rest, c));
        assert(s =~= s.take(n) + seq![c] + rest);
        assert forall|i: int| 0 <= i < all.len() implies !(#[trigger] all[i]).contains(c) by {
            if i > 0 {
                assert(all[i] == pieces(rest, c)[i - 1]);
            }
        }
    }
}

/// Splitting undoes joining, for texts that hold no `c`.
pub proof fn law_joined_texts_are_the_pieces(texts: Seq<Seq<char>>, c: char)
    requires
        texts.len() > 0,
        forall|i: int| 0 <= i < texts.len() ==> !(#[trigger] texts[i]).contains(c),
    ensures
        pieces(joined(texts, c), c) == texts,
    decreases texts.len(),
{
    let s = joined(texts, c);
    let first = texts[0];
    assert(!first.contains(c));
    assert forall|j: int| 0 <= j < first.len() implies first[j] != c by {
        assert(first.contains(first[j]));
    }
    if texts.len() == 1 {
        lemma_count_before(s, c, s.len() as int);
        assert(texts =~= seq![s]);
    } else {
        let rest = texts.drop_first();
        assert forall|i: int| 0 <= i < rest.len() implies !(#[trigger] rest[i]).contains(c) by {
            assert(rest[i] == texts[i + 1]);
        }
        law_joined_texts_are_the_pieces(rest, c);
        lemma_count_before(s, c, first.len() as int);
        assert(s.take(first.len() as int) =~= first);
        assert(s.skip(first.len() as int + 1) =~= joined(rest, c));
        assert(texts =~= seq![first] + rest);
    }
}

/// The lines of a text, with line feeds between them, are the text, and no line holds one.
pub proof fn law_lines_join_to_the_text(s: Seq<char>)
    ensures
        joined(lines(s), '\n') == s,
        forall|i: int| 0 <= i < lines(s).len() ==> !(#[trigger] lines(s)[i]).contains('\n'),
{
    law_pieces_join_to_the_text(s, '\n');
}

/// What comes before the first `c` holds no `c`.
proof fn lemma_before(s: Seq<char>, c: char)
    ensures
        count_before(s, c) <= s.len(),
        !s.take(count_before(s, c) as int).contains(c),
        count_before(s, c) < s.len() ==> s[count_before(s, c) as int] == c,
    decreases s.len(),
{
    if s.len() > 0 && s[0] != c {
        let rest = s.drop_first();
        let n = count_before(rest, c) as int;
        lemma_before(rest, c);
        assert forall|j: int| 0 <= j < n + 1 implies #[trigger] s[j] != c by {
            if j > 0 {
                assert(rest.take(n)[j - 1] == s[j]);
                assert(rest.take(n).contains(s[j]));
            }
        }
    }
}

/// What stands before the first `c` of a text is all that counts, whatever comes after it.
pub proof fn law_count_before_is_the_first(a: Seq<char>, c: char, b: Seq<char>)
    requires
        !a.contains(c),
    ensures
        count_before(a, c) == a.len(),
        count_before(a + seq![c] + b, c) == a.len(),
{
    let s = a + seq![c] + b;
    assert forall|j: int| 0 <= j < a.len() implies a[j] != c by {
        assert(a.contains(a[j]));
    }
    lemma_count_before(a, c, a.len() as int);
    lemma_count_before(s, c, a.len() as int);
}

/// What follows the last `c` of a text is what follows a `c` and holds none itself.
pub proof fn law_after_last_is_behind_the_last(a: Seq<char>, c: char, b: Seq<char>)
    requires
        !b.contains(c),
    ensures
        after_last(a + seq![c] + b, c) == b,
        after_last(b, c) == b,
    decreases b.len(),
{
    let s = a + seq![c] + b;
    if b.len() == 0 {
        assert(after_last(s, c) =~= b);
        assert(after_last(b, c) =~= b);
    } else {
        let front = b.drop_last();
        assert(b.contains(b.last()));
        assert forall|j: int| 0 <= j < front.len() implies front[j] != c by {
            assert(b.contains(b[j]));
        }
        law_after_last_is_behind_the_last(a, c, front);
        assert(s.drop_last() =~= a + seq![c] + front);
        assert(front.push(b.last()) =~= b);
    }
}

/// A character is counted exactly if it is there.
pub proof fn law_count_tells_what_is_there(s: Seq<char>, c: char)
    ensures
        count_of(s, c) > 0 <==> s.contains(c),
    decreases s.len(),
{
    if s.len() > 0 {
        let front = s.drop_last();
        law_count_tells_what_is_there(front, c);
        if front.contains(c) {
            let i = choose|i: int| 0 <= i < front.len() && front[i] == c;
            assert(s[i] == c);
        }
        if s.contains(c) && s.last() != c {
            let i = choose|i: int| 0 <= i < s.len() && s[i] == c;
            assert(front[i] == c);
        }
        if s.last() == c {
            assert(s[s.len() - 1] == c);
        }
    }
}

/// Two texts, one after the other, hold a character as often as both together.
pub proof fn law_counts_add_up(a: Seq<char>, b: Seq<char>, c: char)
    ensures
        count_of(a + b, c) == count_of(a, c) + count_of(b, c),
        count_of(seq![c], c) == 1,
    decreases b.len(),
{
    reveal_with_fuel(count_of, 2);
    assert(seq![c].drop_last() =~= Seq::<char>::empty());
    if b.len() == 0 {
        assert(a + b =~= a);
    } else {
        law_counts_add_up(a, b.drop_last(), c);
        assert((a + b).drop_last() =~= a + b.drop_last());
    }
}

/// The white space of Unicode: these characters and no others.
pub proof fn law_white_space_characters(c: char)
    ensures
        is_white(c) <==> seq![
            '\t',
            '\n',
            '\u{b}',
            '\u{c}',
            '\r',
            ' ',
            '\u{85}',
            '\u{a0}',
            '\u{1680}',
            '\u{2000}',
            '\u{2001}',
            '\u{2002}',
            '\u{2003}',
            '\u{2004}',
            '\u{2005}',
            '\u{2006}',
            '\u{2007}',
            '\u{2008}',
            '\u{2009}',
            '\u{200a}',
            '\u{2028}',
            '\u{2029}',
            '\u{202f}',
            '\u{205f}',
            '\u{3000}',
        ].contains(c),
{
    let all = seq![
        '\t',
        '\n',
        '\u{b}',
        '\u{c}',
        '\r',
        ' ',
        '\u{85}',
        '\u{a0}',
        '\u{1680}',
        '\u{2000}',
        '\u{2001}',
        '\u{2002}',
        '\u{2003}',
        '\u{2004}',
        '\u{2005}',
        '\u{2006}',
        '\u{2007}',
        '\u{2008}',
        '\u{2009}',
        '\u{200a}',
        '\u{2028}',
        '\u{2029}',
        '\u{202f}',
        '\u{205f}',
        '\u{3000}',
    ];
    if is_white(c) {
        assert(all[0] == c || all[1] == c || all[2] == c || all[3] == c || all[4] == c || all[5]
            == c || all[6] == c || all[7] == c || all[8] == c || all[9] == c || all[10] == c
            || all[11] == c || all[12] == c || all[13] == c || all[14] == c || all[15] == c
            || all[16] == c || all[17] == c || all[18] == c || all[19] == c || all[20] == c
            || all[21] == c || all[22] == c || all[23] == c || all[24] == c);
    }
}

/// Whether a text is nothing but white space.
pub open spec fn is_blank(s: Seq<char>) -> bool {
    forall|i: int| 0 <= i < s.len() ==> is_white(#[trigger] s[i])
}

/// Trimming takes the white space on both sides off a text, and nothing else.
pub proof fn law_trimming_leaves_the_middle(before: Seq<char>, k: Seq<char>, after: Seq<char>)
    requires
        is_blank(before),
        is_blank(after),
        k.len() > 0 ==> !is_white(k[0]) && !is_white(k.last()),
    ensures
        trimmed(before + k + after) == k,
{
    lemma_trim_front(before, k + after);
    assert(before + k + after =~= before + (k + after));
    if k.len() > 0 {
        assert((k + after)[0] == k[0]);
        assert(trimmed_front(k + after) == k + after);
        lemma_trim_back(k, after);
    } else {
        lemma_trim_front(after, k);
        assert(k + after =~= after + k);
        assert(trimmed_front(k) =~= k);
        assert(trimmed_back(k) =~= k);
    }
}

proof fn lemma_trim_front(before: Seq<char>, s: Seq<char>)
    requires
        is_blank(before),
    ensures
        trimmed_front(before + s) == trimmed_front(s),
    decreases before.len(),
{
    if before.len() == 0 {
        assert(before + s =~= s);
    } else {
        let rest = before.drop_first();
        assert forall|i: int| 0 <= i < rest.len() implies is_white(#[trigger] rest[i]) by {
            assert(rest[i] == before[i + 1]);
        }
        lemma_trim_front(rest, s);
        assert(is_white(before[0]));
        assert((before + s).drop_first() =~= rest + s);
    }
}

proof fn lemma_trim_back(k: Seq<char>, after: Seq<char>)
    requires
        is_blank(after),
        k.len() > 0,
        !is_white(k.last()),
    ensures
        trimmed_back(k + after) == k,
    decreases after.len(),
{
    if after.len() == 0 {
        assert(k + after =~= k);
    } else {
        let front = after.drop_last();
        assert forall|i: int| 0 <= i < front.len() implies is_white(#[trigger] front[i]) by {
            assert(front[i] == after[i]);
        }
        lemma_trim_back(k, front);
        assert(is_white(after[after.len() - 1]));
        assert((k + after).drop_last() =~= k + front);
    }
}

/// Every capital ASCII letter becomes the letter 32 places on, every other character stays, and
/// each in its place.
pub proof fn law_lowering_moves_capitals_only(s: Seq<char>, i: int)
    requires
        0 <= i < s.len(),
    ensures
        lowered(s).len() == s.len(),
        0x41 <= s[i] as u32 <= 0x5a ==> lowered(s)[i] as u32 == s[i] as u32 + 32,
        !(0x41 <= s[i] as u32 <= 0x5a) ==> lowered(s)[i] == s[i],
{
}

} // verus!
