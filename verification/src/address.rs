//! Whether a peer's address names a port.
//!
//! A port stands behind a colon. An IPv6 address is made of colons itself: in brackets it is told
//! apart from its port by the closing bracket; without brackets it is taken for an address and a
//! port wherever it can be read so.

use vstd::prelude::*;
use vstd::slice::*;
use crate::hex;
use crate::text;

verus! {

/// Whether a text is a group of an IPv6 address: one to four hexadecimal digits.
pub open spec fn is_group(s: Seq<char>) -> bool {
    1 <= s.len() <= 4 && forall|i: int| 0 <= i < s.len() ==> hex::is_digit(#[trigger] s[i])
}

/// How many groups, with colons between them, a text is made of, if it is made of groups.
pub open spec fn group_count(s: Seq<char>) -> Option<nat> {
    let pieces = text::pieces(s, ':');
    if s.len() == 0 {
        Some(0)
    } else if forall|i: int| 0 <= i < pieces.len() ==> is_group(#[trigger] pieces[i]) {
        Some(pieces.len())
    } else {
        None
    }
}

/// How many characters come before the first two colons in a row, all of them if there are none.
pub open spec fn gap(s: Seq<char>) -> nat
    decreases s.len(),
{
    if s.len() < 2 {
        s.len()
    } else if s[0] == ':' && s[1] == ':' {
        0
    } else {
        1 + gap(s.drop_first())
    }
}

/// Whether a text is an IPv6 address, written in hexadecimal: eight groups, or fewer with two
/// colons in the place of the missing ones.
pub open spec fn is_ipv6(s: Seq<char>) -> bool {
    let k = gap(s) as int;
    if k < s.len() {
        match (group_count(s.take(k)), group_count(s.skip(k + 2))) {
            (Some(a), Some(b)) => a + b <= 7,
            _ => false,
        }
    } else {
        group_count(s) == Some(8nat)
    }
}

/// Whether a text is a decimal number.
pub open spec fn is_decimal(s: Seq<char>) -> bool {
    s.len() > 0 && forall|i: int| 0 <= i < s.len() ==> '0' <= #[trigger] s[i] <= '9'
}

/// Whether a text is an IPv6 address, a colon and a port.
pub open spec fn is_ipv6_and_port(s: Seq<char>) -> bool {
    let port = text::after_last(s, ':');
    port.len() < s.len() && is_ipv6(s.take(s.len() - port.len() - 1)) && is_decimal(port)
}

/// Whether a text is an IPv6 address by itself, and cannot be read as one with a port.
pub open spec fn is_bare_ipv6(s: Seq<char>) -> bool {
    is_ipv6(s) && !is_ipv6_and_port(s)
}

/// Whether an address names a port: a colon stands behind its closing bracket or, if it has none,
/// anywhere but in an IPv6 address by itself.
pub open spec fn names_port(s: Seq<char>) -> bool {
    if text::count_of(s, ']') > 0 {
        text::count_of(text::after_last(s, ']'), ':') > 0
    } else {
        text::count_of(s, ':') > 0 && !is_bare_ipv6(s)
    }
}

fn group(s: &[char]) -> (r: bool)
    ensures
        r == is_group(s@),
{
    if s.len() == 0 || s.len() > 4 {
        return false;
    }
    let mut i: usize = 0;
    while i < s.len()
        invariant
            i <= s@.len(),
            forall|j: int| 0 <= j < i ==> hex::is_digit(#[trigger] s@[j]),
        decreases s@.len() - i,
    {
        let c: char = s[i];
        if !(('0' <= c && c <= '9') || ('a' <= c && c <= 'f') || ('A' <= c && c <= 'F')) {
            assert(!hex::is_digit(s@[i as int]));
            return false;
        }
        i = i + 1;
    }
    true
}

fn count_groups(s: &[char]) -> (r: Option<usize>)
    ensures
        match r {
            Some(n) => group_count(s@) == Some(n as nat),
            None => group_count(s@) is None,
        },
{
    if s.len() == 0 {
        return Some(0);
    }
    let pieces = text::split(s, ':');
    let ghost all = text::pieces(s@, ':');
    let mut i: usize = 0;
    while i < pieces.len()
        invariant
            s@.len() > 0,
            all == text::pieces(s@, ':'),
            pieces@.map_values(|v: Vec<char>| v@) == all,
            i <= pieces@.len(),
            forall|j: int| 0 <= j < i ==> is_group(#[trigger] all[j]),
        decreases pieces@.len() - i,
    {
        assert(all[i as int] == pieces@[i as int]@);
        if !group(pieces[i].as_slice()) {
            assert(!is_group(all[i as int]));
            return None;
        }
        i = i + 1;
    }
    Some(pieces.len())
}

fn find_gap(s: &[char]) -> (n: usize)
    ensures
        n == gap(s@),
        n <= s@.len(),
        n < s@.len() ==> n + 2 <= s@.len(),
{
    let mut n: usize = 0;
    assert(s@.skip(0) =~= s@);
    while s.len() - n >= 2 && !(s[n] == ':' && s[n + 1] == ':')
        invariant
            n <= s@.len(),
            gap(s@) == n + gap(s@.skip(n as int)),
        decreases s@.len() - n,
    {
        assert(s@.skip(n as int).drop_first() =~= s@.skip(n + 1));
        n = n + 1;
    }
    if s.len() - n < 2 {
        s.len()
    } else {
        n
    }
}

fn ipv6(s: &[char]) -> (r: bool)
    ensures
        r == is_ipv6(s@),
{
    let k: usize = find_gap(s);
    if k < s.len() {
        let left = slice_subrange(s, 0, k);
        let right = slice_subrange(s, k + 2, s.len());
        assert(left@ =~= s@.take(k as int));
        assert(right@ =~= s@.skip(k + 2));
        match (count_groups(left), count_groups(right)) {
            (Some(a), Some(b)) => a <= 7 && b <= 7 - a,
            _ => false,
        }
    } else {
        match count_groups(s) {
            Some(n) => n == 8,
            None => false,
        }
    }
}

fn decimal(s: &[char]) -> (r: bool)
    ensures
        r == is_decimal(s@),
{
    let mut i: usize = 0;
    while i < s.len()
        invariant
            i <= s@.len(),
            forall|j: int| 0 <= j < i ==> '0' <= #[trigger] s@[j] <= '9',
        decreases s@.len() - i,
    {
        let c: char = s[i];
        if !('0' <= c && c <= '9') {
            return false;
        }
        i = i + 1;
    }
    s.len() > 0
}

/// Whether a text is an IPv6 address by itself, and cannot be read as one with a port.
pub fn bare_ipv6(s: &[char]) -> (r: bool)
    ensures
        r == is_bare_ipv6(s@),
{
    if !ipv6(s) {
        return false;
    }
    let at: usize = text::find_after_last(s, ':');
    let port = slice_subrange(s, at, s.len());
    assert(port@ =~= s@.skip(at as int));
    if at == 0 {
        return true;
    }
    let host = slice_subrange(s, 0, at - 1);
    assert(host@ =~= s@.take(s@.len() - port@.len() - 1));
    !(ipv6(host) && decimal(port))
}

/// Whether an address names a port.
pub fn has_port(s: &[char]) -> (r: bool)
    ensures
        r == names_port(s@),
{
    if text::count_char(s, ']') > 0 {
        let at: usize = text::find_after_last(s, ']');
        let tail = slice_subrange(s, at, s.len());
        assert(tail@ =~= s@.skip(at as int));
        text::count_char(tail, ':') > 0
    } else {
        text::count_char(s, ':') > 0 && !bare_ipv6(s)
    }
}

/// Whether some texts are all groups.
pub open spec fn are_groups(texts: Seq<Seq<char>>) -> bool {
    forall|i: int| 0 <= i < texts.len() ==> is_group(#[trigger] texts[i])
}

/// A group is one to four hexadecimal digits.
pub proof fn law_group_is_up_to_four_digits(s: Seq<char>)
    ensures
        is_group(s) <==> 1 <= s.len() <= 4 && forall|i: int|
            0 <= i < s.len() ==> "0123456789abcdefABCDEF"@.contains(#[trigger] s[i]),
{
    assert forall|i: int| 0 <= i < s.len() implies hex::is_digit(#[trigger] s[i])
        == "0123456789abcdefABCDEF"@.contains(s[i]) by {
        hex::law_digit_characters(s[i]);
    }
    if is_group(s) {
        assert forall|i: int| 0 <= i < s.len() implies "0123456789abcdefABCDEF"@.contains(
            #[trigger] s[i],
        ) by {
            assert(hex::is_digit(s[i]));
        }
    }
}

/// A run of groups, with colons between them, neither begins nor ends with a colon and has no two
/// in a row.
proof fn lemma_run_has_single_colons(texts: Seq<Seq<char>>)
    requires
        are_groups(texts),
    ensures
        ({
            let s = text::joined(texts, ':');
            &&& s.len() == 0 <==> texts.len() == 0
            &&& s.len() > 0 ==> s[0] != ':' && s[s.len() - 1] != ':'
            &&& forall|i: int| 0 <= i < s.len() - 1 ==> !(#[trigger] s[i] == ':' && s[i + 1] == ':')
        }),
    decreases texts.len(),
{
    let s = text::joined(texts, ':');
    if texts.len() > 0 {
        let first = texts[0];
        assert(is_group(first));
        assert forall|i: int| 0 <= i < first.len() implies #[trigger] first[i] != ':' by {
            assert(hex::is_digit(first[i]));
        }
        if texts.len() > 1 {
            let rest = texts.drop_first();
            assert forall|i: int| 0 <= i < rest.len() implies is_group(#[trigger] rest[i]) by {
                assert(rest[i] == texts[i + 1]);
            }
            lemma_run_has_single_colons(rest);
            let r = text::joined(rest, ':');
            let n = first.len() as int;
            assert forall|i: int| 0 <= i < s.len() - 1 implies !(#[trigger] s[i] == ':' && s[i + 1]
                == ':') by {
                if i < n {
                    assert(s[i] == first[i]);
                } else if i == n {
                    assert(s[i + 1] == r[0]);
                } else {
                    assert(s[i] == r[i - n - 1] && s[i + 1] == r[i - n]);
                }
            }
            assert(s[0] == first[0]);
            assert(s[s.len() - 1] == r[r.len() - 1]);
        }
    }
}

/// How many groups a run is made of is how many it was put together from.
proof fn lemma_count_of_run(texts: Seq<Seq<char>>)
    requires
        are_groups(texts),
    ensures
        group_count(text::joined(texts, ':')) == Some(texts.len()),
{
    lemma_run_has_single_colons(texts);
    if texts.len() > 0 {
        assert forall|i: int| 0 <= i < texts.len() implies !(#[trigger] texts[i]).contains(':') by {
            let g = texts[i];
            assert(is_group(g));
            assert forall|j: int| 0 <= j < g.len() implies #[trigger] g[j] != ':' by {
                assert(hex::is_digit(g[j]));
            }
        }
        text::law_joined_texts_are_the_pieces(texts, ':');
    }
}

/// Where the first two colons in a row stand is where a scan finds them.
proof fn lemma_gap(s: Seq<char>, k: int)
    requires
        0 <= k <= s.len(),
        forall|i: int| 0 <= i < k && i + 1 < s.len() ==> !(#[trigger] s[i] == ':' && s[i + 1]
            == ':'),
        k < s.len() ==> k + 1 < s.len() && s[k] == ':' && s[k + 1] == ':',
    ensures
        gap(s) == k,
    decreases s.len(),
{
    if s.len() >= 2 && k > 0 {
        let rest = s.drop_first();
        assert(!(s[0] == ':' && s[1] == ':'));
        assert forall|i: int| 0 <= i < k - 1 && i + 1 < rest.len() implies !(#[trigger] rest[i]
            == ':' && rest[i + 1] == ':') by {
            assert(rest[i] == s[i + 1]);
        }
        lemma_gap(rest, k - 1);
    }
}

/// Eight groups with colons between them are an IPv6 address.
pub proof fn law_eight_groups_are_ipv6(groups: Seq<Seq<char>>)
    requires
        are_groups(groups),
        groups.len() == 8,
    ensures
        is_ipv6(text::joined(groups, ':')),
{
    let s = text::joined(groups, ':');
    lemma_run_has_single_colons(groups);
    lemma_count_of_run(groups);
    lemma_gap(s, s.len() as int);
}

/// At most seven groups, with two colons in the place of the missing ones, are an IPv6 address.
pub proof fn law_shortened_groups_are_ipv6(left: Seq<Seq<char>>, right: Seq<Seq<char>>)
    requires
        are_groups(left),
        are_groups(right),
        left.len() + right.len() <= 7,
    ensures
        is_ipv6(text::joined(left, ':') + seq![':', ':'] + text::joined(right, ':')),
{
    let a = text::joined(left, ':');
    let b = text::joined(right, ':');
    let s = a + seq![':', ':'] + b;
    let k = a.len() as int;
    lemma_run_has_single_colons(left);
    lemma_count_of_run(left);
    lemma_count_of_run(right);
    assert forall|i: int| 0 <= i < k && i + 1 < s.len() implies !(#[trigger] s[i] == ':' && s[i + 1]
        == ':') by {
        assert(s[i] == a[i]);
        if i + 1 < k {
            assert(s[i + 1] == a[i + 1]);
        }
    }
    lemma_gap(s, k);
    assert(s.take(k) =~= a);
    assert(s.skip(k + 2) =~= b);
}

/// What the first two colons in a row stand behind has none, and where they are found they are.
proof fn lemma_gap_found(s: Seq<char>)
    ensures
        gap(s) <= s.len(),
        gap(s) < s.len() ==> gap(s) + 1 < s.len() && s[gap(s) as int] == ':' && s[gap(s) as int + 1]
            == ':',
    decreases s.len(),
{
    if s.len() >= 2 && !(s[0] == ':' && s[1] == ':') {
        lemma_gap_found(s.drop_first());
    }
}

/// The groups of a run.
pub open spec fn groups_of(s: Seq<char>) -> Seq<Seq<char>> {
    if s.len() == 0 {
        Seq::empty()
    } else {
        text::pieces(s, ':')
    }
}

proof fn lemma_groups_of(s: Seq<char>)
    requires
        group_count(s) is Some,
    ensures
        are_groups(groups_of(s)),
        groups_of(s).len() == group_count(s)->0,
        text::joined(groups_of(s), ':') == s,
{
    text::law_pieces_join_to_the_text(s, ':');
    assert(text::joined(Seq::empty(), ':') =~= Seq::<char>::empty());
}

/// There is no IPv6 address but those two: eight groups, or at most seven around two colons.
pub proof fn law_ipv6_is_groups(s: Seq<char>)
    requires
        is_ipv6(s),
    ensures
        ({
            ||| exists|groups: Seq<Seq<char>>| #[trigger]
                are_groups(groups) && groups.len() == 8 && s == text::joined(groups, ':')
            ||| exists|left: Seq<Seq<char>>, right: Seq<Seq<char>>| #[trigger]
                are_groups(left) && #[trigger] are_groups(right) && left.len() + right.len() <= 7
                    && s == text::joined(left, ':') + seq![':', ':'] + text::joined(right, ':')
        }),
{
    let k = gap(s) as int;
    lemma_gap_found(s);
    if k < s.len() {
        let a = s.take(k);
        let b = s.skip(k + 2);
        lemma_groups_of(a);
        lemma_groups_of(b);
        assert(s =~= a + seq![':', ':'] + b);
        assert(are_groups(groups_of(a)) && are_groups(groups_of(b)));
    } else {
        lemma_groups_of(s);
        assert(are_groups(groups_of(s)));
    }
}

/// An IPv6 address has a colon and no bracket.
pub proof fn law_ipv6_has_colons_and_no_brackets(s: Seq<char>)
    requires
        is_ipv6(s),
    ensures
        s.contains(':'),
        !s.contains(']'),
        !s.contains('['),
{
    let k = gap(s) as int;
    lemma_gap_found(s);
    if k < s.len() {
        let a = s.take(k);
        let b = s.skip(k + 2);
        lemma_groups_of(a);
        lemma_groups_of(b);
        lemma_run_characters(groups_of(a));
        lemma_run_characters(groups_of(b));
        assert(s[k] == ':');
        assert forall|i: int| 0 <= i < s.len() implies #[trigger] s[i] == ':' || hex::is_digit(
            s[i],
        ) by {
            if i < k {
                assert(a[i] == s[i]);
            } else if i >= k + 2 {
                assert(b[i - k - 2] == s[i]);
            }
        }
    } else {
        let groups = groups_of(s);
        lemma_groups_of(s);
        lemma_run_characters(groups);
        let first = groups[0];
        assert(s == first + seq![':'] + text::joined(groups.drop_first(), ':'));
        assert(s[first.len() as int] == ':');
    }
}

proof fn lemma_run_characters(texts: Seq<Seq<char>>)
    requires
        are_groups(texts),
    ensures
        forall|i: int|
            0 <= i < text::joined(texts, ':').len() ==> #[trigger] text::joined(texts, ':')[i]
                == ':' || hex::is_digit(text::joined(texts, ':')[i]),
    decreases texts.len(),
{
    let s = text::joined(texts, ':');
    if texts.len() > 0 {
        let first = texts[0];
        assert(is_group(first));
        if texts.len() > 1 {
            let rest = texts.drop_first();
            assert forall|i: int| 0 <= i < rest.len() implies is_group(#[trigger] rest[i]) by {
                assert(rest[i] == texts[i + 1]);
            }
            lemma_run_characters(rest);
            let r = text::joined(rest, ':');
            let n = first.len() as int;
            assert forall|i: int| 0 <= i < s.len() implies #[trigger] s[i] == ':' || hex::is_digit(
                s[i],
            ) by {
                if i < n {
                    assert(s[i] == first[i]);
                } else if i > n {
                    assert(s[i] == r[i - n - 1]);
                }
            }
        }
    }
}

/// A decimal number is one or more of the ten digits.
pub proof fn law_decimal_is_ten_digits(s: Seq<char>)
    ensures
        is_decimal(s) <==> s.len() > 0 && forall|i: int|
            0 <= i < s.len() ==> "0123456789"@.contains(#[trigger] s[i]),
{
    reveal_strlit("0123456789");
    let d = "0123456789"@;
    assert forall|i: int| 0 <= i < s.len() implies ('0' <= #[trigger] s[i] <= '9') == d.contains(
        s[i],
    ) by {
        let c = s[i];
        if '0' <= c <= '9' {
            assert(d[0] == c || d[1] == c || d[2] == c || d[3] == c || d[4] == c || d[5] == c
                || d[6] == c || d[7] == c || d[8] == c || d[9] == c);
        }
    }
    if is_decimal(s) {
        assert forall|i: int| 0 <= i < s.len() implies d.contains(#[trigger] s[i]) by {
            assert('0' <= s[i] <= '9');
        }
    }
}

/// An IPv6 address, a colon and a decimal number are an address and a port, and nothing else is.
pub proof fn law_ipv6_and_port_is_both(s: Seq<char>, host: Seq<char>, port: Seq<char>)
    ensures
        is_ipv6(host) && is_decimal(port) && s == host + seq![':'] + port ==> is_ipv6_and_port(s),
        is_ipv6_and_port(s) ==> exists|h: Seq<char>, p: Seq<char>| #[trigger]
            is_ipv6(h) && #[trigger] is_decimal(p) && s == h + seq![':'] + p,
{
    if is_ipv6(host) && is_decimal(port) && s == host + seq![':'] + port {
        assert(!port.contains(':'));
        text::law_after_last_is_behind_the_last(host, ':', port);
        assert(s.take(s.len() - port.len() - 1) =~= host);
    }
    if is_ipv6_and_port(s) {
        let p = text::after_last(s, ':');
        let h = s.take(s.len() - p.len() - 1);
        lemma_after_last_is_the_end(s, ':');
        assert(s =~= h + seq![':'] + p);
        assert(is_ipv6(h) && is_decimal(p));
    }
}

/// What follows the last `c` stands at the end, behind it.
pub proof fn lemma_after_last_is_the_end(s: Seq<char>, c: char)
    ensures
        text::after_last(s, c).len() <= s.len(),
        s.skip(s.len() - text::after_last(s, c).len()) == text::after_last(s, c),
        text::after_last(s, c).len() < s.len() ==> s[s.len() - text::after_last(s, c).len() - 1]
            == c,
    decreases s.len(),
{
    let t = text::after_last(s, c);
    if s.len() == 0 || s.last() == c {
        assert(s.skip(s.len() as int) =~= t);
    } else {
        let front = s.drop_last();
        lemma_after_last_is_the_end(front, c);
        let u = text::after_last(front, c);
        assert(s.skip(s.len() - t.len()) =~= u.push(s.last())) by {
            assert(front.skip(front.len() - u.len()) == u);
            assert forall|i: int| 0 <= i < u.len() implies s.skip(s.len() - t.len())[i]
                == #[trigger] u[i] by {
                assert(front.skip(front.len() - u.len())[i] == u[i]);
            }
        }
    }
}

} // verus!
