//! Reading an address from its text.
//!
//! The accepted texts are the dotted quad for IPv4 and the colon-separated
//! forms for IPv6: eight groups, or fewer groups around one `::`, where in
//! either form the last 32 bits may be written as a dotted quad. The whole
//! text has to be an address; nothing may stand before or after it.

use crate::addr::{Ipv4Addr, Ipv6Addr};
use crate::text::option_view;
use vstd::prelude::*;

verus! {

/// The value of `c` as a decimal digit.
pub open spec fn decimal_digit(c: char) -> Option<int> {
    let n = c as u32;
    if '0' as u32 <= n <= '9' as u32 {
        Some(n - '0' as u32)
    } else {
        None
    }
}

/// The value of `c` as a hexadecimal digit of either case.
pub open spec fn hex_digit(c: char) -> Option<int> {
    let n = c as u32;
    if '0' as u32 <= n <= '9' as u32 {
        Some(n - '0' as u32)
    } else if 'a' as u32 <= n <= 'f' as u32 {
        Some(n - 'a' as u32 + 10)
    } else if 'A' as u32 <= n <= 'F' as u32 {
        Some(n - 'A' as u32 + 10)
    } else {
        None
    }
}

/// The number that the decimal digits of `s` spell.
pub open spec fn decimal_value(s: Seq<char>) -> int
    decreases s.len(),
{
    if s.len() == 0 {
        0
    } else {
        decimal_value(s.drop_last()) * 10 + decimal_digit(s.last()).unwrap_or(0)
    }
}

/// The number that the hexadecimal digits of `s` spell.
pub open spec fn hex_value(s: Seq<char>) -> int
    decreases s.len(),
{
    if s.len() == 0 {
        0
    } else {
        hex_value(s.drop_last()) * 16 + hex_digit(s.last()).unwrap_or(0)
    }
}

/// One octet of a dotted quad: one to three decimal digits, no leading zero
/// before another digit, at most 255.
pub open spec fn is_octet_text(s: Seq<char>) -> bool {
    &&& 1 <= s.len() <= 3
    &&& forall|i: int| 0 <= i < s.len() ==> decimal_digit(#[trigger] s[i]) is Some
    &&& s.len() > 1 ==> s[0] != '0'
    &&& decimal_value(s) <= 255
}

/// One group of an IPv6 address: one to four hexadecimal digits.
pub open spec fn is_hex_group(s: Seq<char>) -> bool {
    &&& 1 <= s.len() <= 4
    &&& forall|i: int| 0 <= i < s.len() ==> hex_digit(#[trigger] s[i]) is Some
}

/// The pieces of `s` between the occurrences of `sep`. There is always one
/// piece more than there are separators, so the empty text has one empty
/// piece.
pub open spec fn split(s: Seq<char>, sep: char) -> Seq<Seq<char>>
    decreases s.len(),
{
    if s.len() == 0 {
        seq![Seq::empty()]
    } else {
        let before = split(s.drop_last(), sep);
        if s.last() == sep {
            before.push(Seq::empty())
        } else {
            before.update(before.len() - 1, before.last().push(s.last()))
        }
    }
}

/// The octet that a text spells, if it is the text of one.
pub open spec fn octet_value(s: Seq<char>) -> Option<u8> {
    if is_octet_text(s) {
        Some(decimal_value(s) as u8)
    } else {
        None
    }
}

/// The segment that a text spells, if it is a hexadecimal group.
pub open spec fn hex_group_value(s: Seq<char>) -> Option<u16> {
    if is_hex_group(s) {
        Some(hex_value(s) as u16)
    } else {
        None
    }
}

/// The address that four octet texts denote.
pub open spec fn quad_value(f: Seq<Seq<char>>) -> Option<Ipv4Addr> {
    if f.len() == 4 && is_octet_text(f[0]) && is_octet_text(f[1]) && is_octet_text(f[2])
        && is_octet_text(f[3]) {
        Some(
            Ipv4Addr {
                a: decimal_value(f[0]) as u8,
                b: decimal_value(f[1]) as u8,
                c: decimal_value(f[2]) as u8,
                d: decimal_value(f[3]) as u8,
            },
        )
    } else {
        None
    }
}

/// The address that a dotted quad denotes, if `s` is one: the pieces between
/// its dots are four octet texts.
pub open spec fn ipv4_text_value(s: Seq<char>) -> Option<Ipv4Addr> {
    quad_value(split(s, '.'))
}

/// Every piece is a hexadecimal group.
pub open spec fn all_hex_groups(fields: Seq<Seq<char>>) -> bool {
    forall|i: int| 0 <= i < fields.len() ==> is_hex_group(#[trigger] fields[i])
}

/// The segments that hexadecimal groups denote, one for one.
pub open spec fn hex_values(fields: Seq<Seq<char>>) -> Seq<u16> {
    Seq::new(fields.len(), |i: int| hex_value(fields[i]) as u16)
}

/// The two segments that hold an IPv4 address in the last 32 bits.
pub open spec fn embedded_segments(v4: Ipv4Addr) -> Seq<u16> {
    seq![(v4.a * 256 + v4.b) as u16, (v4.c * 256 + v4.d) as u16]
}

/// The segments that a run of colon-separated groups denotes. The empty text
/// denotes no segment. Where `dotted_tail` holds, the last piece may be a
/// dotted quad, which stands for two segments.
pub open spec fn groups_value(text: Seq<char>, dotted_tail: bool) -> Option<Seq<u16>> {
    let f = split(text, ':');
    if text.len() == 0 {
        Some(Seq::empty())
    } else if all_hex_groups(f) {
        Some(hex_values(f))
    } else if dotted_tail && all_hex_groups(f.drop_last()) && ipv4_text_value(f.last()) is Some {
        Some(hex_values(f.drop_last()) + embedded_segments(ipv4_text_value(f.last()).unwrap()))
    } else {
        None
    }
}

/// `s` holds `::` at index `i`.
pub open spec fn gap_at(s: Seq<char>, i: int) -> bool {
    0 <= i && i + 1 < s.len() && s[i] == ':' && s[i + 1] == ':'
}

/// The leftmost `::` of `s` is at index `i`.
pub open spec fn first_gap_at(s: Seq<char>, i: int) -> bool {
    gap_at(s, i) && forall|j: int| 0 <= j < i ==> !gap_at(s, j)
}

/// `n` segments that are zero.
pub open spec fn zero_segments(n: int) -> Seq<u16> {
    Seq::new(n as nat, |i: int| 0u16)
}

/// The address written with a `::` between `head` and `tail`: the groups of
/// `head`, then as many zero segments as it takes (at least one), then the
/// groups of `tail`.
pub open spec fn gapped_value(head: Seq<char>, tail: Seq<char>) -> Option<Ipv6Addr> {
    match (groups_value(head, false), groups_value(tail, true)) {
        (Some(h), Some(t)) => if h.len() + t.len() <= 7 {
            Some(Ipv6Addr::of_segments(h + zero_segments(8 - h.len() - t.len()) + t))
        } else {
            None
        },
        _ => None,
    }
}

/// The address written without `::`, all eight segments given.
pub open spec fn full_value(s: Seq<char>) -> Option<Ipv6Addr> {
    match groups_value(s, true) {
        Some(g) => if g.len() == 8 {
            Some(Ipv6Addr::of_segments(g))
        } else {
            None
        },
        None => None,
    }
}

/// The address that an IPv6 text denotes, if `s` is one. A second `::` ends
/// up in the tail, where it leaves an empty piece, which is no group.
pub open spec fn ipv6_text_value(s: Seq<char>) -> Option<Ipv6Addr> {
    if exists|i: int| first_gap_at(s, i) {
        let i = choose|i: int| first_gap_at(s, i);
        gapped_value(s.take(i), s.skip(i + 2))
    } else {
        full_value(s)
    }
}

/// The pieces of `split` are never none.
pub proof fn lemma_split_nonempty(s: Seq<char>, sep: char)
    ensures
        split(s, sep).len() >= 1,
    decreases s.len(),
{
    if s.len() > 0 {
        lemma_split_nonempty(s.drop_last(), sep);
    }
}

/// A decimal text of `n` digits spells a number below ten to the `n`, for the
/// lengths that an octet can have.
proof fn lemma_decimal_bound(s: Seq<char>)
    requires
        s.len() <= 3,
    ensures
        0 <= decimal_value(s),
        s.len() == 0 ==> decimal_value(s) == 0,
        s.len() == 1 ==> decimal_value(s) < 10,
        s.len() == 2 ==> decimal_value(s) < 100,
        s.len() == 3 ==> decimal_value(s) < 1000,
    decreases s.len(),
{
    if s.len() > 0 {
        lemma_decimal_bound(s.drop_last());
    }
}

/// A hexadecimal text of up to four digits spells a 16-bit number.
proof fn lemma_hex_bound(s: Seq<char>)
    requires
        s.len() <= 4,
    ensures
        0 <= hex_value(s),
        s.len() == 0 ==> hex_value(s) == 0,
        s.len() == 1 ==> hex_value(s) < 0x10,
        s.len() == 2 ==> hex_value(s) < 0x100,
        s.len() == 3 ==> hex_value(s) < 0x1000,
        s.len() == 4 ==> hex_value(s) < 0x10000,
    decreases s.len(),
{
    if s.len() > 0 {
        lemma_hex_bound(s.drop_last());
    }
}

/// The texts that the pieces hold.
pub open spec fn field_views(fields: Seq<Vec<char>>) -> Seq<Seq<char>> {
    Seq::new(fields.len(), |i: int| fields[i]@)
}

/// The characters of a text, one for one.
pub fn chars_of(text: &str) -> (chars: Vec<char>)
    ensures
        chars@ == text@,
{
    broadcast use vstd::string::group_string_axioms;

    let mut chars: Vec<char> = Vec::new();
    for c in it: text.chars()
        invariant
            chars@ == it.seq().take(it.index()),
            it.seq() == text@,
    {
        chars.push(c);
    }
    assert(chars@ == text@);
    chars
}

/// Cuts `chars[start..end]` at every `sep`.
fn split_range(chars: &Vec<char>, start: usize, end: usize, sep: char) -> (fields: Vec<Vec<char>>)
    requires
        start <= end <= chars.len(),
    ensures
        field_views(fields@) == split(chars@.subrange(start as int, end as int), sep),
{
    let ghost text = chars@.subrange(start as int, end as int);
    let mut fields: Vec<Vec<char>> = Vec::new();
    let mut current: Vec<char> = Vec::new();
    let mut i: usize = start;
    assert(text.take(0) =~= Seq::<char>::empty());
    assert(field_views(fields@).push(current@) =~= split(text.take(0), sep));
    while i < end
        invariant
            start <= i <= end <= chars.len(),
            text == chars@.subrange(start as int, end as int),
            field_views(fields@).push(current@) == split(text.take(i - start), sep),
        decreases end - i,
    {
        let c = chars[i];
        let ghost before = text.take(i - start);
        let ghost now = text.take(i - start + 1);
        assert(now.drop_last() =~= before);
        assert(now.last() == c);
        if c == sep {
            let ghost old_fields = field_views(fields@);
            fields.push(current);
            current = Vec::new();
            assert(field_views(fields@) =~= old_fields.push(fields@[fields.len() - 1]@));
            assert(field_views(fields@).push(current@) =~= split(now, sep));
        } else {
            current.push(c);
            assert(field_views(fields@).push(current@) =~= split(now, sep));
        }
        i = i + 1;
    }
    assert(text.take(end - start) =~= text);
    let ghost old_fields = field_views(fields@);
    fields.push(current);
    assert(field_views(fields@) =~= old_fields.push(fields@[fields.len() - 1]@));
    fields
}

/// Reads one octet of a dotted quad.
fn parse_octet(field: &Vec<char>) -> (r: Option<u8>)
    ensures
        r == octet_value(field@),
{
    let n = field.len();
    if n == 0 || n > 3 {
        return None;
    }
    if n > 1 && field[0] == '0' {
        return None;
    }
    let mut value: u32 = 0;
    let mut i: usize = 0;
    while i < n
        invariant
            i <= n == field.len(),
            n <= 3,
            value == decimal_value(field@.take(i as int)),
            forall|j: int| 0 <= j < i ==> decimal_digit(#[trigger] field@[j]) is Some,
        decreases n - i,
    {
        let c = field[i] as u32;
        proof {
            lemma_decimal_bound(field@.take(i as int));
            assert(field@.take(i + 1).drop_last() =~= field@.take(i as int));
        }
        if c < '0' as u32 || c > '9' as u32 {
            return None;
        }
        value = value * 10 + (c - '0' as u32);
        i = i + 1;
    }
    assert(field@.take(n as int) =~= field@);
    if value > 255 {
        return None;
    }
    Some(value as u8)
}

/// Reads one hexadecimal group.
fn parse_hex_group(field: &Vec<char>) -> (r: Option<u16>)
    ensures
        r == hex_group_value(field@),
{
    let n = field.len();
    if n == 0 || n > 4 {
        return None;
    }
    let mut value: u32 = 0;
    let mut i: usize = 0;
    while i < n
        invariant
            i <= n == field.len(),
            n <= 4,
            value == hex_value(field@.take(i as int)),
            forall|j: int| 0 <= j < i ==> hex_digit(#[trigger] field@[j]) is Some,
        decreases n - i,
    {
        let c = field[i] as u32;
        proof {
            lemma_hex_bound(field@.take(i as int));
            assert(field@.take(i + 1).drop_last() =~= field@.take(i as int));
        }
        let digit: u32 = if '0' as u32 <= c && c <= '9' as u32 {
            c - '0' as u32
        } else if 'a' as u32 <= c && c <= 'f' as u32 {
            c - 'a' as u32 + 10
        } else if 'A' as u32 <= c && c <= 'F' as u32 {
            c - 'A' as u32 + 10
        } else {
            return None;
        };
        value = value * 16 + digit;
        i = i + 1;
    }
    proof {
        assert(field@.take(n as int) =~= field@);
        lemma_hex_bound(field@);
    }
    Some(value as u16)
}

/// Reads a dotted quad from pieces that were cut at the dots.
fn parse_quad(fields: &Vec<Vec<char>>) -> (r: Option<Ipv4Addr>)
    ensures
        r == quad_value(field_views(fields@)),
{
    if fields.len() != 4 {
        return None;
    }
    let a = match parse_octet(&fields[0]) {
        Some(v) => v,
        None => { return None; },
    };
    let b = match parse_octet(&fields[1]) {
        Some(v) => v,
        None => { return None; },
    };
    let c = match parse_octet(&fields[2]) {
        Some(v) => v,
        None => { return None; },
    };
    let d = match parse_octet(&fields[3]) {
        Some(v) => v,
        None => { return None; },
    };
    Some(Ipv4Addr { a, b, c, d })
}

/// Reads the dotted quad that `chars[start..end]` holds.
fn parse_quad_range(chars: &Vec<char>, start: usize, end: usize) -> (r: Option<Ipv4Addr>)
    requires
        start <= end <= chars.len(),
    ensures
        r == ipv4_text_value(chars@.subrange(start as int, end as int)),
{
    let fields = split_range(chars, start, end, '.');
    assert(field_views(fields@).len() == fields.len());
    parse_quad(&fields)
}

/// Reads the run of groups that `chars[start..end]` holds.
fn parse_groups(chars: &Vec<char>, start: usize, end: usize, dotted_tail: bool) -> (r: Option<
    Vec<u16>,
>)
    requires
        start <= end <= chars.len(),
    ensures
        option_view(r) == groups_value(chars@.subrange(start as int, end as int), dotted_tail),
{
    if start == end {
        return Some(Vec::new());
    }
    let ghost text = chars@.subrange(start as int, end as int);
    let fields = split_range(chars, start, end, ':');
    let ghost f = field_views(fields@);
    proof {
        lemma_split_nonempty(text, ':');
    }
    let n = fields.len();
    let mut groups: Vec<u16> = Vec::new();
    let mut i: usize = 0;
    while i < n - 1
        invariant
            i <= n - 1,
            n == fields.len(),
            n >= 1,
            f == field_views(fields@),
            f == split(text, ':'),
            text == chars@.subrange(start as int, end as int),
            text.len() > 0,
            groups@ == hex_values(f.take(i as int)),
            all_hex_groups(f.take(i as int)),
        decreases n - i,
    {
        match parse_hex_group(&fields[i]) {
            Some(g) => {
                groups.push(g);
                assert(groups@ =~= hex_values(f.take(i + 1)));
                assert(all_hex_groups(f.take(i + 1))) by {
                    assert forall|j: int| 0 <= j < i + 1 implies is_hex_group(
                        #[trigger] f.take(i + 1)[j],
                    ) by {
                        if j < i {
                            assert(f.take(i + 1)[j] == f.take(i as int)[j]);
                        }
                    }
                }
            },
            None => {
                assert(!is_hex_group(f[i as int]));
                assert(!is_hex_group(f.drop_last()[i as int]));
                return None;
            },
        }
        i = i + 1;
    }
    assert(f.take(n - 1) =~= f.drop_last());
    let last = &fields[n - 1];
    assert(last@ == f.last());
    match parse_hex_group(last) {
        Some(g) => {
            groups.push(g);
            assert(all_hex_groups(f)) by {
                assert forall|j: int| 0 <= j < f.len() implies is_hex_group(#[trigger] f[j]) by {
                    if j < n - 1 {
                        assert(f[j] == f.drop_last()[j]);
                    }
                }
            }
            assert(groups@ =~= hex_values(f));
            Some(groups)
        },
        None => {
            if !dotted_tail {
                return None;
            }
            assert(last@.subrange(0, last@.len() as int) =~= last@);
            match parse_quad_range(last, 0, last.len()) {
                Some(v4) => {
                    let high: u16 = (v4.a as u16) * 256 + (v4.b as u16);
                    let low: u16 = (v4.c as u16) * 256 + (v4.d as u16);
                    groups.push(high);
                    groups.push(low);
                    assert(groups@ =~= hex_values(f.drop_last()) + embedded_segments(v4));
                    Some(groups)
                },
                None => None,
            }
        },
    }
}

/// Finds the leftmost `::`.
fn find_gap(chars: &Vec<char>) -> (r: Option<usize>)
    ensures
        r matches Some(i) ==> first_gap_at(chars@, i as int),
        r is None ==> forall|i: int| !gap_at(chars@, i),
{
    let n = chars.len();
    if n < 2 {
        return None;
    }
    let mut i: usize = 0;
    while i < n - 1
        invariant
            n == chars.len(),
            n >= 2,
            forall|j: int| 0 <= j < i ==> !gap_at(chars@, j),
        decreases n - i,
    {
        if chars[i] == ':' && chars[i + 1] == ':' {
            return Some(i);
        }
        i = i + 1;
    }
    None
}

/// There is one leftmost `::` at most.
pub proof fn lemma_first_gap_unique(s: Seq<char>, i: int, j: int)
    requires
        first_gap_at(s, i),
        first_gap_at(s, j),
    ensures
        i == j,
{
    if i < j {
        assert(!gap_at(s, i));
    } else if j < i {
        assert(!gap_at(s, j));
    }
}

impl Ipv6Addr {
    /// Reads an address from its colon-separated text.
    pub fn parse(text: &str) -> (r: Option<Ipv6Addr>)
        ensures
            r == ipv6_text_value(text@),
    {
        let chars = chars_of(text);
        let n = chars.len();
        match find_gap(&chars) {
            None => {
                assert(chars@.subrange(0, n as int) =~= chars@);
                match parse_groups(&chars, 0, n, true) {
                    Some(g) => {
                        if g.len() == 8 {
                            Some(Ipv6Addr::new(g[0], g[1], g[2], g[3], g[4], g[5], g[6], g[7]))
                        } else {
                            None
                        }
                    },
                    None => None,
                }
            },
            Some(i) => {
                proof {
                    let k = choose|k: int| first_gap_at(chars@, k);
                    lemma_first_gap_unique(chars@, i as int, k);
                    assert(chars@.subrange(0, i as int) =~= chars@.take(i as int));
                    assert(chars@.subrange(i + 2, n as int) =~= chars@.skip(i + 2));
                }
                let head = match parse_groups(&chars, 0, i, false) {
                    Some(h) => h,
                    None => { return None; },
                };
                let tail = match parse_groups(&chars, i + 2, n, true) {
                    Some(t) => t,
                    None => { return None; },
                };
                if head.len() > 7 || tail.len() > 7 - head.len() {
                    return None;
                }
                let mut segments: Vec<u16> = head;
                let ghost h = segments@;
                let zeros = 8 - segments.len() - tail.len();
                let mut z: usize = 0;
                while z < zeros
                    invariant
                        z <= zeros,
                        h.len() + zeros + tail.len() == 8,
                        segments@ == h + zero_segments(z as int),
                    decreases zeros - z,
                {
                    segments.push(0);
                    z = z + 1;
                    assert(segments@ =~= h + zero_segments(z as int));
                }
                let mut t: usize = 0;
                while t < tail.len()
                    invariant
                        t <= tail.len(),
                        h.len() + zeros + tail.len() == 8,
                        segments@ == h + zero_segments(zeros as int) + tail@.take(t as int),
                    decreases tail.len() - t,
                {
                    segments.push(tail[t]);
                    t = t + 1;
                    assert(segments@ =~= h + zero_segments(zeros as int) + tail@.take(t as int));
                }
                assert(tail@.take(tail.len() as int) =~= tail@);
                Some(
                    Ipv6Addr::new(
                        segments[0],
                        segments[1],
                        segments[2],
                        segments[3],
                        segments[4],
                        segments[5],
                        segments[6],
                        segments[7],
                    ),
                )
            },
        }
    }
}

impl Ipv4Addr {
    /// Reads an address from a dotted quad.
    pub fn parse(text: &str) -> (r: Option<Ipv4Addr>)
        ensures
            r == ipv4_text_value(text@),
    {
        let chars = chars_of(text);
        assert(chars@.subrange(0, chars@.len() as int) =~= chars@);
        parse_quad_range(&chars, 0, chars.len())
    }
}

} // verus!
