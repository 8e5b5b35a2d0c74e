//! The text of an address reads back as the address.

use crate::addr::format::{
    decimal_text, digit_char, embedded_ipv4, groups_text, hex_text, ipv4_text, ipv6_text,
    longest_zero_run,
};
use crate::addr::parse::{
    all_hex_groups, decimal_digit, decimal_value, embedded_segments, first_gap_at, gap_at,
    groups_value, hex_digit, hex_value, hex_values, ipv4_text_value, ipv6_text_value,
    is_hex_group, is_octet_text, lemma_first_gap_unique, split, zero_segments,
};
use crate::addr::{Ipv4Addr, Ipv6Addr};
use vstd::prelude::*;

verus! {

/// A digit reads back as its value, and is neither a dot nor a colon.
proof fn lemma_digit_char(d: int)
    requires
        0 <= d < 16,
    ensures
        hex_digit(digit_char(d)) == Some(d),
        d < 10 ==> decimal_digit(digit_char(d)) == Some(d),
        d == 0 <==> digit_char(d) == '0',
        digit_char(d) != '.',
        digit_char(d) != ':',
{
}

/// The decimal text of an octet is an octet text that spells the octet.
proof fn lemma_decimal_text(n: nat)
    requires
        n < 256,
    ensures
        is_octet_text(decimal_text(n)),
        decimal_value(decimal_text(n)) == n,
        !decimal_text(n).contains('.'),
        !decimal_text(n).contains(':'),
{
    let t = decimal_text(n);
    lemma_digit_char((n % 10) as int);
    lemma_digit_char(((n / 10) % 10) as int);
    lemma_digit_char((n / 100) as int);
    reveal_with_fuel(decimal_text, 3);
    reveal_with_fuel(decimal_value, 4);
    if n < 10 {
        assert(t =~= seq![digit_char(n as int)]);
        assert(t.drop_last() =~= Seq::<char>::empty());
    } else if n < 100 {
        assert(t =~= seq![digit_char((n / 10) as int), digit_char((n % 10) as int)]);
        assert(t.drop_last() =~= seq![digit_char((n / 10) as int)]);
        assert(t.drop_last().drop_last() =~= Seq::<char>::empty());
    } else {
        assert(t =~= seq![
            digit_char((n / 100) as int),
            digit_char(((n / 10) % 10) as int),
            digit_char((n % 10) as int),
        ]);
        assert(t.drop_last() =~= seq![
            digit_char((n / 100) as int),
            digit_char(((n / 10) % 10) as int),
        ]);
        assert(t.drop_last().drop_last() =~= seq![digit_char((n / 100) as int)]);
        assert(t.drop_last().drop_last().drop_last() =~= Seq::<char>::empty());
    }
}

/// A text without the separator is one piece.
proof fn lemma_split_one_piece(y: Seq<char>, sep: char)
    requires
        !y.contains(sep),
    ensures
        split(y, sep) == seq![y],
    decreases y.len(),
{
    if y.len() > 0 {
        assert forall|i: int| 0 <= i < y.drop_last().len() implies y.drop_last()[i] != sep by {
            assert(y.contains(y[i]));
        }
        assert(!y.drop_last().contains(sep));
        lemma_split_one_piece(y.drop_last(), sep);
        assert(y.contains(y.last()));
        assert(y.drop_last().push(y.last()) =~= y);
        assert(seq![y.drop_last()].update(0, y) =~= seq![y]);
    } else {
        assert(y =~= Seq::<char>::empty());
    }
}

/// A separator and a text without the separator add one piece.
proof fn lemma_split_next_piece(x: Seq<char>, y: Seq<char>, sep: char)
    requires
        !y.contains(sep),
    ensures
        split(x + seq![sep] + y, sep) == split(x, sep).push(y),
    decreases y.len(),
{
    let all = x + seq![sep] + y;
    if y.len() == 0 {
        assert(all.drop_last() =~= x);
        assert(y =~= Seq::<char>::empty());
    } else {
        let shorter = y.drop_last();
        assert forall|i: int| 0 <= i < shorter.len() implies shorter[i] != sep by {
            assert(y.contains(y[i]));
        }
        assert(!shorter.contains(sep));
        lemma_split_next_piece(x, shorter, sep);
        assert(all.drop_last() =~= x + seq![sep] + shorter);
        assert(y.contains(y.last()));
        assert(all.last() == y.last());
        let before = split(x, sep).push(shorter);
        assert(before.update(before.len() - 1, before.last().push(y.last())) =~= split(
            x,
            sep,
        ).push(y)) by {
            assert(shorter.push(y.last()) =~= y);
        }
    }
}

/// The text of an IPv4 address reads back as the address.
pub proof fn lemma_ipv4_text_reads_back(addr: Ipv4Addr)
    ensures
        ipv4_text_value(ipv4_text(addr)) == Some(addr),
{
    let a = decimal_text(addr.a as nat);
    let b = decimal_text(addr.b as nat);
    let c = decimal_text(addr.c as nat);
    let d = decimal_text(addr.d as nat);
    lemma_decimal_text(addr.a as nat);
    lemma_decimal_text(addr.b as nat);
    lemma_decimal_text(addr.c as nat);
    lemma_decimal_text(addr.d as nat);
    lemma_split_one_piece(a, '.');
    lemma_split_next_piece(a, b, '.');
    lemma_split_next_piece(a + seq!['.'] + b, c, '.');
    lemma_split_next_piece(a + seq!['.'] + b + seq!['.'] + c, d, '.');
    assert(split(ipv4_text(addr), '.') =~= seq![a, b, c, d]);
}

/// The text of an IPv4 address holds a dot and no colon.
proof fn lemma_ipv4_text_shape(addr: Ipv4Addr)
    ensures
        ipv4_text(addr).contains('.'),
        !ipv4_text(addr).contains(':'),
{
    let a = decimal_text(addr.a as nat);
    lemma_decimal_text(addr.a as nat);
    lemma_decimal_text(addr.b as nat);
    lemma_decimal_text(addr.c as nat);
    lemma_decimal_text(addr.d as nat);
    let t = ipv4_text(addr);
    assert(t[a.len() as int] == '.');
    assert forall|i: int| 0 <= i < t.len() implies t[i] != ':' by {
        let b = decimal_text(addr.b as nat);
        let c = decimal_text(addr.c as nat);
        let d = decimal_text(addr.d as nat);
        if i < a.len() {
            assert(a.contains(a[i]));
        } else if i == a.len() {
        } else if i < a.len() + 1 + b.len() {
            assert(b.contains(b[i - a.len() - 1]));
        } else if i == a.len() + 1 + b.len() {
        } else if i < a.len() + 1 + b.len() + 1 + c.len() {
            assert(c.contains(c[i - a.len() - 1 - b.len() - 1]));
        } else if i == a.len() + 1 + b.len() + 1 + c.len() {
        } else {
            assert(d.contains(d[i - a.len() - 1 - b.len() - 1 - c.len() - 1]));
        }
    }
}

/// The hexadecimal text of a segment is a group that spells the segment.
proof fn lemma_hex_text(n: nat)
    requires
        n < 0x10000,
    ensures
        is_hex_group(hex_text(n)),
        hex_value(hex_text(n)) == n,
        !hex_text(n).contains(':'),
{
    let t = hex_text(n);
    lemma_digit_char((n % 16) as int);
    lemma_digit_char(((n / 0x10) % 16) as int);
    lemma_digit_char(((n / 0x100) % 16) as int);
    lemma_digit_char((n / 0x1000) as int);
    reveal_with_fuel(hex_text, 4);
    reveal_with_fuel(hex_value, 5);
    if n < 0x10 {
        assert(t =~= seq![digit_char(n as int)]);
        assert(t.drop_last() =~= Seq::<char>::empty());
    } else if n < 0x100 {
        assert(t =~= seq![digit_char((n / 0x10) as int), digit_char((n % 16) as int)]);
        assert(t.drop_last() =~= seq![digit_char((n / 0x10) as int)]);
        assert(t.drop_last().drop_last() =~= Seq::<char>::empty());
    } else if n < 0x1000 {
        assert(t =~= seq![
            digit_char((n / 0x100) as int),
            digit_char(((n / 0x10) % 16) as int),
            digit_char((n % 16) as int),
        ]);
        assert(t.drop_last() =~= seq![
            digit_char((n / 0x100) as int),
            digit_char(((n / 0x10) % 16) as int),
        ]);
        assert(t.drop_last().drop_last() =~= seq![digit_char((n / 0x100) as int)]);
        assert(t.drop_last().drop_last().drop_last() =~= Seq::<char>::empty());
    } else {
        assert(t =~= seq![
            digit_char((n / 0x1000) as int),
            digit_char(((n / 0x100) % 16) as int),
            digit_char(((n / 0x10) % 16) as int),
            digit_char((n % 16) as int),
        ]);
        assert(t.drop_last() =~= seq![
            digit_char((n / 0x1000) as int),
            digit_char(((n / 0x100) % 16) as int),
            digit_char(((n / 0x10) % 16) as int),
        ]);
        assert(t.drop_last().drop_last() =~= seq![
            digit_char((n / 0x1000) as int),
            digit_char(((n / 0x100) % 16) as int),
        ]);
        assert(t.drop_last().drop_last().drop_last() =~= seq![digit_char((n / 0x1000) as int)]);
        assert(t.drop_last().drop_last().drop_last().drop_last() =~= Seq::<char>::empty());
    }
}

/// The hexadecimal texts of the segments, one for one.
spec fn pieces(segments: Seq<u16>) -> Seq<Seq<char>> {
    Seq::new(segments.len(), |i: int| hex_text(segments[i] as nat))
}

/// The text of a run of segments holds no `::`, and neither starts nor ends
/// with a colon.
proof fn lemma_groups_text_shape(segments: Seq<u16>)
    ensures
        forall|j: int| !gap_at(groups_text(segments), j),
        segments.len() > 0 ==> groups_text(segments).len() > 0 && groups_text(segments)[0] != ':'
            && groups_text(segments).last() != ':',
    decreases segments.len(),
{
    let t = groups_text(segments);
    if segments.len() == 0 {
    } else if segments.len() == 1 {
        lemma_hex_text(segments[0] as nat);
        assert forall|j: int| 0 <= j < t.len() implies t[j] != ':' by {
            assert(t.contains(t[j]));
        }
    } else {
        let before = groups_text(segments.drop_last());
        let h = hex_text(segments.last() as nat);
        lemma_groups_text_shape(segments.drop_last());
        lemma_hex_text(segments.last() as nat);
        assert forall|j: int| 0 <= j < h.len() implies h[j] != ':' by {
            assert(h.contains(h[j]));
        }
        assert(t =~= before + seq![':'] + h);
        assert forall|j: int| !gap_at(t, j) by {
            if 0 <= j && j + 1 < t.len() {
                if j + 1 < before.len() {
                    assert(!gap_at(before, j));
                    assert(t[j] == before[j] && t[j + 1] == before[j + 1]);
                } else if j + 1 == before.len() {
                    assert(t[j] == before.last());
                } else if j == before.len() {
                    assert(t[j + 1] == h[0]);
                } else {
                    assert(t[j] == h[j - before.len() - 1]);
                }
            }
        }
        assert(t[0] == before[0]);
        assert(t.last() == h.last());
    }
}

/// Cut at its colons, the text of a run of segments gives the hexadecimal
/// text of each segment.
proof fn lemma_groups_text_split(segments: Seq<u16>)
    requires
        segments.len() > 0,
    ensures
        split(groups_text(segments), ':') == pieces(segments),
    decreases segments.len(),
{
    if segments.len() == 1 {
        lemma_hex_text(segments[0] as nat);
        lemma_split_one_piece(hex_text(segments[0] as nat), ':');
        assert(pieces(segments) =~= seq![hex_text(segments[0] as nat)]);
    } else {
        let init = segments.drop_last();
        lemma_groups_text_split(init);
        lemma_hex_text(segments.last() as nat);
        lemma_split_next_piece(groups_text(init), hex_text(segments.last() as nat), ':');
        assert(pieces(segments) =~= pieces(init).push(hex_text(segments.last() as nat)));
    }
}

/// The text of a run of segments reads back as the segments.
proof fn lemma_groups_text_reads_back(segments: Seq<u16>, dotted_tail: bool)
    ensures
        groups_value(groups_text(segments), dotted_tail) == Some(segments),
{
    if segments.len() == 0 {
        assert(segments =~= Seq::<u16>::empty());
    } else {
        lemma_groups_text_shape(segments);
        lemma_groups_text_split(segments);
        assert forall|i: int| 0 <= i < pieces(segments).len() implies is_hex_group(
            #[trigger] pieces(segments)[i],
        ) by {
            lemma_hex_text(segments[i] as nat);
        }
        assert(hex_values(pieces(segments)) =~= segments) by {
            assert forall|i: int| 0 <= i < segments.len() implies hex_values(pieces(segments))[i]
                == segments[i] by {
                lemma_hex_text(segments[i] as nat);
            }
        }
    }
}

/// The text of a run of segments, `::`, and the text of another run that
/// leaves room for a zero read back as the two runs with zeros between them.
proof fn lemma_gapped_text_reads_back(head: Seq<u16>, tail: Seq<u16>)
    requires
        head.len() + tail.len() <= 7,
    ensures
        ipv6_text_value(groups_text(head) + seq![':', ':'] + groups_text(tail)) == Some(
            Ipv6Addr::of_segments(head + zero_segments(8 - head.len() - tail.len()) + tail),
        ),
{
    let h = groups_text(head);
    let t = groups_text(tail);
    let text = h + seq![':', ':'] + t;
    lemma_groups_text_shape(head);
    lemma_groups_text_reads_back(head, false);
    lemma_groups_text_reads_back(tail, true);
    let at = h.len() as int;
    assert(first_gap_at(text, at)) by {
        assert(text[at] == ':' && text[at + 1] == ':');
        assert forall|j: int| 0 <= j < at implies !gap_at(text, j) by {
            if j + 1 < at {
                assert(!gap_at(h, j));
                assert(text[j] == h[j] && text[j + 1] == h[j + 1]);
            } else {
                assert(text[j] == h.last());
            }
        }
    }
    let k = choose|k: int| first_gap_at(text, k);
    lemma_first_gap_unique(text, at, k);
    assert(text.take(at) =~= h);
    assert(text.skip(at + 2) =~= t);
}

/// The text `ffff:` and a dotted quad read back as the segment `ffff` and
/// the two segments of the quad.
proof fn lemma_mapped_tail_reads_back(v4: Ipv4Addr)
    ensures
        groups_value(seq!['f', 'f', 'f', 'f', ':'] + ipv4_text(v4), true) == Some(
            seq![0xffffu16] + embedded_segments(v4),
        ),
{
    let quad = ipv4_text(v4);
    let ffff = seq!['f', 'f', 'f', 'f'];
    let tail = seq!['f', 'f', 'f', 'f', ':'] + quad;
    lemma_ipv4_text_shape(v4);
    lemma_ipv4_text_reads_back(v4);
    assert(tail =~= ffff + seq![':'] + quad);
    assert(!ffff.contains(':'));
    lemma_split_one_piece(ffff, ':');
    lemma_split_next_piece(ffff, quad, ':');
    let f = split(tail, ':');
    assert(f =~= seq![ffff, quad]);
    assert(!is_hex_group(quad)) by {
        let i = choose|i: int| 0 <= i < quad.len() && quad[i] == '.';
        assert(hex_digit(quad[i]) is None);
    }
    assert(!all_hex_groups(f)) by {
        assert(f[1] == quad);
    }
    assert(f.drop_last() =~= seq![ffff]);
    assert(f.last() == quad);
    assert(is_hex_group(ffff));
    assert(all_hex_groups(f.drop_last()));
    assert(hex_value(ffff) == 0xffff) by {
        reveal_with_fuel(hex_value, 5);
        assert(ffff.drop_last() =~= seq!['f', 'f', 'f']);
        assert(ffff.drop_last().drop_last() =~= seq!['f', 'f']);
        assert(ffff.drop_last().drop_last().drop_last() =~= seq!['f']);
        assert(ffff.drop_last().drop_last().drop_last().drop_last() =~= Seq::<char>::empty());
    }
    assert(hex_values(f.drop_last()) =~= seq![0xffffu16]);
}

/// The text of an address that stands for an IPv4 address reads back as the
/// address.
proof fn lemma_mapped_text_reads_back(addr: Ipv6Addr)
    requires
        addr.ipv4_mapped(),
    ensures
        ipv6_text_value(ipv6_text(addr)) == Some(addr),
{
    let v4 = embedded_ipv4(addr);
    let text = ipv6_text(addr);
    let tail = seq!['f', 'f', 'f', 'f', ':'] + ipv4_text(v4);
    lemma_mapped_tail_reads_back(v4);
    assert(text =~= seq![':', ':'] + tail);
    assert(first_gap_at(text, 0));
    let k = choose|k: int| first_gap_at(text, k);
    lemma_first_gap_unique(text, 0, k);
    assert(text.take(0) =~= Seq::<char>::empty());
    assert(text.skip(2) =~= tail);
    assert(embedded_segments(v4) =~= seq![addr.s6, addr.s7]);
    let t = seq![0xffffu16] + embedded_segments(v4);
    assert(t.len() == 3);
    assert(Seq::<u16>::empty() + zero_segments(5) + t =~= addr.segments_seq());
}

/// The text of an IPv6 address reads back as the address.
pub proof fn lemma_ipv6_text_reads_back(addr: Ipv6Addr)
    ensures
        ipv6_text_value(ipv6_text(addr)) == Some(addr),
{
    let segments = addr.segments_seq();
    if addr.ipv4_mapped() {
        lemma_mapped_text_reads_back(addr);
    } else if exists|start: int, len: int| len >= 2 && longest_zero_run(segments, start, len) {
        let (start, len) = choose|start: int, len: int|
            len >= 2 && longest_zero_run(segments, start, len);
        let head = segments.take(start);
        let tail = segments.skip(start + len);
        lemma_gapped_text_reads_back(head, tail);
        assert(head + zero_segments(8 - head.len() - tail.len()) + tail =~= segments);
    } else {
        lemma_groups_text_shape(segments);
        lemma_groups_text_reads_back(segments, true);
        assert(!exists|i: int| first_gap_at(ipv6_text(addr), i));
    }
}

} // verus!
