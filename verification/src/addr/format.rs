//! Writing an address as text.
//!
//! An IPv4 address is written as a dotted quad. An IPv6 address is written in
//! lower-case hexadecimal without leading zeros, with `::` in place of its
//! longest run of two or more zero segments (the first such run where several
//! are equally long), and with a dotted quad at the end where it stands for an
//! IPv4 address (`::ffff:a.b.c.d`).

use crate::addr::{IpAddr, Ipv4Addr, Ipv6Addr};
use vstd::prelude::*;
use vstd::string::StringExecFns;

verus! {

/// The character of a digit below sixteen, in lower case.
pub open spec fn digit_char(d: int) -> char {
    if d < 10 {
        (('0' as u32) + d) as char
    } else {
        (('a' as u32) + d - 10) as char
    }
}

/// The decimal digits of `n`, without leading zeros.
pub open spec fn decimal_text(n: nat) -> Seq<char>
    decreases n,
{
    if n < 10 {
        seq![digit_char(n as int)]
    } else {
        decimal_text(n / 10).push(digit_char((n % 10) as int))
    }
}

/// The hexadecimal digits of `n`, in lower case and without leading zeros.
pub open spec fn hex_text(n: nat) -> Seq<char>
    decreases n,
{
    if n < 16 {
        seq![digit_char(n as int)]
    } else {
        hex_text(n / 16).push(digit_char((n % 16) as int))
    }
}

/// The dotted quad of an address.
pub open spec fn ipv4_text(addr: Ipv4Addr) -> Seq<char> {
    decimal_text(addr.a as nat) + seq!['.'] + decimal_text(addr.b as nat) + seq!['.']
        + decimal_text(addr.c as nat) + seq!['.'] + decimal_text(addr.d as nat)
}

/// The segments in hexadecimal with a colon between each two of them.
pub open spec fn groups_text(segments: Seq<u16>) -> Seq<char>
    decreases segments.len(),
{
    if segments.len() == 0 {
        Seq::empty()
    } else if segments.len() == 1 {
        hex_text(segments[0] as nat)
    } else {
        groups_text(segments.drop_last()) + seq![':'] + hex_text(segments.last() as nat)
    }
}

/// The segments from `start` on, `len` of them, are there and are all zero.
pub open spec fn zero_run(segments: Seq<u16>, start: int, len: int) -> bool {
    &&& 0 <= start
    &&& 0 <= len
    &&& start + len <= segments.len()
    &&& forall|i: int| start <= i < start + len ==> segments[i] == 0
}

/// The run of zeros from `start` on is the one to be written as `::`: no run
/// is longer, and none that is as long starts before it.
pub open spec fn longest_zero_run(segments: Seq<u16>, start: int, len: int) -> bool {
    &&& zero_run(segments, start, len)
    &&& forall|s: int, l: int|
        zero_run(segments, s, l) ==> l < len || (l == len && start <= s)
}

/// The IPv4 address in the last 32 bits.
pub open spec fn embedded_ipv4(addr: Ipv6Addr) -> Ipv4Addr {
    Ipv4Addr {
        a: (addr.s6 / 256) as u8,
        b: (addr.s6 % 256) as u8,
        c: (addr.s7 / 256) as u8,
        d: (addr.s7 % 256) as u8,
    }
}

/// The text of an IPv6 address.
pub open spec fn ipv6_text(addr: Ipv6Addr) -> Seq<char> {
    let segments = addr.segments_seq();
    if addr.ipv4_mapped() {
        seq![':', ':', 'f', 'f', 'f', 'f', ':'] + ipv4_text(embedded_ipv4(addr))
    } else if exists|start: int, len: int| len >= 2 && longest_zero_run(segments, start, len) {
        let (start, len) = choose|start: int, len: int|
            len >= 2 && longest_zero_run(segments, start, len);
        groups_text(segments.take(start)) + seq![':', ':'] + groups_text(
            segments.skip(start + len),
        )
    } else {
        groups_text(segments)
    }
}

/// The text of an address of either family.
pub open spec fn ip_text(addr: IpAddr) -> Seq<char> {
    match addr {
        IpAddr::V4(a) => ipv4_text(a),
        IpAddr::V6(a) => ipv6_text(a),
    }
}

/// There is one longest run of zeros at most.
pub proof fn lemma_longest_zero_run_unique(
    segments: Seq<u16>,
    start: int,
    len: int,
    start2: int,
    len2: int,
)
    requires
        longest_zero_run(segments, start, len),
        longest_zero_run(segments, start2, len2),
    ensures
        start == start2,
        len == len2,
{
    assert(zero_run(segments, start, len));
    assert(zero_run(segments, start2, len2));
}

/// The text of one digit.
fn digit_str(d: u8) -> (s: &'static str)
    requires
        d < 16,
    ensures
        s@ == seq![digit_char(d as int)],
{
    proof {
        reveal_strlit("0");
        reveal_strlit("1");
        reveal_strlit("2");
        reveal_strlit("3");
        reveal_strlit("4");
        reveal_strlit("5");
        reveal_strlit("6");
        reveal_strlit("7");
        reveal_strlit("8");
        reveal_strlit("9");
        reveal_strlit("a");
        reveal_strlit("b");
        reveal_strlit("c");
        reveal_strlit("d");
        reveal_strlit("e");
        reveal_strlit("f");
    }
    let s = match d {
        0 => "0",
        1 => "1",
        2 => "2",
        3 => "3",
        4 => "4",
        5 => "5",
        6 => "6",
        7 => "7",
        8 => "8",
        9 => "9",
        10 => "a",
        11 => "b",
        12 => "c",
        13 => "d",
        14 => "e",
        _ => "f",
    };
    assert(s@ =~= seq![digit_char(d as int)]);
    s
}

/// Appends the decimal digits of `n`.
fn push_decimal(text: &mut String, n: u8)
    ensures
        final(text)@ == old(text)@ + decimal_text(n as nat),
{
    if n >= 100 {
        text.append(digit_str(n / 100));
        text.append(digit_str((n / 10) % 10));
        text.append(digit_str(n % 10));
        assert(decimal_text(n as nat) =~= seq![
            digit_char((n / 100) as int),
            digit_char(((n / 10) % 10) as int),
            digit_char((n % 10) as int),
        ]) by {
            reveal_with_fuel(decimal_text, 3);
        }
    } else if n >= 10 {
        text.append(digit_str(n / 10));
        text.append(digit_str(n % 10));
        assert(decimal_text(n as nat) =~= seq![
            digit_char((n / 10) as int),
            digit_char((n % 10) as int),
        ]) by {
            reveal_with_fuel(decimal_text, 2);
        }
    } else {
        text.append(digit_str(n));
    }
    assert(text@ =~= old(text)@ + decimal_text(n as nat));
}

/// Appends the hexadecimal digits of `n`.
fn push_hex(text: &mut String, n: u16)
    ensures
        final(text)@ == old(text)@ + hex_text(n as nat),
{
    if n >= 0x1000 {
        text.append(digit_str((n / 0x1000) as u8));
        text.append(digit_str(((n / 0x100) % 16) as u8));
        text.append(digit_str(((n / 0x10) % 16) as u8));
        text.append(digit_str((n % 16) as u8));
        assert(hex_text(n as nat) =~= seq![
            digit_char((n / 0x1000) as int),
            digit_char(((n / 0x100) % 16) as int),
            digit_char(((n / 0x10) % 16) as int),
            digit_char((n % 16) as int),
        ]) by {
            reveal_with_fuel(hex_text, 4);
        }
    } else if n >= 0x100 {
        text.append(digit_str((n / 0x100) as u8));
        text.append(digit_str(((n / 0x10) % 16) as u8));
        text.append(digit_str((n % 16) as u8));
        assert(hex_text(n as nat) =~= seq![
            digit_char((n / 0x100) as int),
            digit_char(((n / 0x10) % 16) as int),
            digit_char((n % 16) as int),
        ]) by {
            reveal_with_fuel(hex_text, 3);
        }
    } else if n >= 0x10 {
        text.append(digit_str((n / 0x10) as u8));
        text.append(digit_str((n % 16) as u8));
        assert(hex_text(n as nat) =~= seq![
            digit_char((n / 0x10) as int),
            digit_char((n % 16) as int),
        ]) by {
            reveal_with_fuel(hex_text, 2);
        }
    } else {
        text.append(digit_str(n as u8));
    }
    assert(text@ =~= old(text)@ + hex_text(n as nat));
}

/// Appends the dotted quad of `addr`.
fn push_ipv4(text: &mut String, addr: &Ipv4Addr)
    ensures
        final(text)@ == old(text)@ + ipv4_text(*addr),
{
    proof {
        reveal_strlit(".");
    }
    push_decimal(text, addr.a);
    text.append(".");
    push_decimal(text, addr.b);
    text.append(".");
    push_decimal(text, addr.c);
    text.append(".");
    push_decimal(text, addr.d);
    assert(text@ =~= old(text)@ + ipv4_text(*addr));
}

/// Appends the segments `segments[from..to]` with colons between them.
fn push_groups(text: &mut String, segments: &[u16; 8], from: usize, to: usize)
    requires
        from <= to <= 8,
    ensures
        final(text)@ == old(text)@ + groups_text(segments@.subrange(from as int, to as int)),
{
    proof {
        reveal_strlit(":");
    }
    let ghost part = segments@.subrange(from as int, to as int);
    let mut i: usize = from;
    assert(part.take(0) =~= Seq::<u16>::empty());
    while i < to
        invariant
            from <= i <= to <= 8,
            part == segments@.subrange(from as int, to as int),
            ":"@ == seq![':'],
            text@ == old(text)@ + groups_text(part.take(i - from)),
        decreases to - i,
    {
        let ghost before = part.take(i - from);
        let ghost now = part.take(i - from + 1);
        assert(now.drop_last() =~= before);
        assert(now.last() == segments@[i as int]);
        if i > from {
            text.append(":");
        }
        push_hex(text, segments[i]);
        assert(text@ =~= old(text)@ + groups_text(now));
        i = i + 1;
    }
    assert(part.take(to - from) =~= part);
}

/// Whether `segments[start..start + len]` are all zero.
fn is_zero_run(segments: &[u16; 8], start: usize, len: usize) -> (r: bool)
    requires
        start + len <= 8,
    ensures
        r == zero_run(segments@, start as int, len as int),
{
    let mut i: usize = start;
    while i < start + len
        invariant
            start <= i <= start + len <= 8,
            forall|j: int| start <= j < i ==> segments@[j] == 0,
        decreases start + len - i,
    {
        if segments[i] != 0 {
            return false;
        }
        i = i + 1;
    }
    true
}

/// Finds the run of zeros that is written as `::`, if there is one of two
/// segments or more.
fn find_longest_zero_run(segments: &[u16; 8]) -> (r: Option<(usize, usize)>)
    ensures
        r matches Some((start, len)) ==> len >= 2 && longest_zero_run(
            segments@,
            start as int,
            len as int,
        ),
        r is None ==> forall|start: int, len: int|
            len >= 2 ==> !longest_zero_run(segments@, start, len),
{
    let mut len: usize = 8;
    while len >= 2
        invariant
            1 <= len <= 8,
            forall|s: int, l: int| l > len ==> !zero_run(segments@, s, l),
        decreases len,
    {
        let mut start: usize = 0;
        while start + len <= 8
            invariant
                2 <= len <= 8,
                start + len <= 9,
                forall|s: int, l: int| l > len ==> !zero_run(segments@, s, l),
                forall|s: int| s < start ==> !zero_run(segments@, s, len as int),
            decreases 9 - start,
        {
            if is_zero_run(segments, start, len) {
                return Some((start, len));
            }
            start = start + 1;
        }
        len = len - 1;
    }
    assert forall|start: int, l: int| l >= 2 implies !longest_zero_run(segments@, start, l) by {
        assert(!zero_run(segments@, start, l));
    }
    None
}

impl Ipv4Addr {
    /// The dotted quad of this address.
    pub fn to_text(&self) -> (text: String)
        ensures
            text@ == ipv4_text(*self),
    {
        let mut text = String::new();
        push_ipv4(&mut text, self);
        text
    }
}

impl Ipv6Addr {
    /// The text of this address.
    pub fn to_text(&self) -> (text: String)
        ensures
            text@ == ipv6_text(*self),
    {
        proof {
            reveal_strlit("::ffff:");
            reveal_strlit("::");
        }
        let segments = self.segments();
        let mut text = String::new();
        if self.s0 == 0 && self.s1 == 0 && self.s2 == 0 && self.s3 == 0 && self.s4 == 0 && self.s5
            == 0xffff {
            let v4 = Ipv4Addr {
                a: (self.s6 / 256) as u8,
                b: (self.s6 % 256) as u8,
                c: (self.s7 / 256) as u8,
                d: (self.s7 % 256) as u8,
            };
            text.append("::ffff:");
            push_ipv4(&mut text, &v4);
            assert(text@ =~= ipv6_text(*self));
            return text;
        }
        match find_longest_zero_run(&segments) {
            Some((start, len)) => {
                proof {
                    let (s, l) = choose|s: int, l: int|
                        l >= 2 && longest_zero_run(segments@, s, l);
                    lemma_longest_zero_run_unique(segments@, start as int, len as int, s, l);
                    assert(segments@.subrange(0, start as int) =~= segments@.take(start as int));
                    assert(segments@.subrange(start + len, 8) =~= segments@.skip(start + len));
                }
                push_groups(&mut text, &segments, 0, start);
                text.append("::");
                push_groups(&mut text, &segments, start + len, 8);
                assert(text@ =~= ipv6_text(*self));
            },
            None => {
                assert(segments@.subrange(0, 8) =~= segments@);
                push_groups(&mut text, &segments, 0, 8);
                assert(text@ =~= ipv6_text(*self));
            },
        }
        text
    }
}

impl IpAddr {
    /// The text of this address.
    pub fn to_text(&self) -> (text: String)
        ensures
            text@ == ip_text(*self),
    {
        match self {
            IpAddr::V4(a) => a.to_text(),
            IpAddr::V6(a) => a.to_text(),
        }
    }
}

} // verus!
