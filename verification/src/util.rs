//! Finding addresses in free text, and cleaning a list of addresses.
//!
//! Candidates are found by two regular expressions, one per family. A
//! candidate that is no address after all (an octet with a leading zero, a
//! zone suffix) is dropped. The addresses come out family by family: every
//! IPv4 address in the order of the text, then every IPv6 address in the order
//! of the text.

use crate::addr::format::{ipv4_text, ipv6_text};
use crate::addr::parse::{ipv4_text_value, ipv6_text_value};
use crate::addr::round_trip::{lemma_ipv4_text_reads_back, lemma_ipv6_text_reads_back};
use crate::addr::{IpAddr, Ipv4Addr, Ipv6Addr};
use crate::text::{optional_string_views, string_views};
use vstd::prelude::*;

verus! {

/// The pattern of an IPv4 candidate: four groups of one to three digits, each
/// at most 255, with dots between them.
pub const IPV4_PATTERN: &'static str =
    r"(?:(?:(?:25[0-5]|(?:2[0-4]|1{0,1}[0-9]){0,1}[0-9])\.){3,3}(?:25[0-5]|(?:2[0-4]|1{0,1}[0-9]){0,1}[0-9]))";

/// The pattern of an IPv6 candidate: the colon-separated forms, with `::`,
/// with a dotted quad at the end, and the link-local form with a zone.
pub const IPV6_PATTERN: &'static str =
    r"(?:(?:(?:(?:[0-9a-fA-F]){1,4}):){1,4}:[^\s:](?:(?:(?:25[0-5]|(?:2[0-4]|1{0,1}[0-9]){0,1}[0-9])\.){3,3}(?:25[0-5]|(?:2[0-4]|1{0,1}[0-9]){0,1}[0-9])))|(?:::(?:ffff(?::0{1,4}){0,1}:){0,1}[^\s:](?:(?:(?:25[0-5]|(?:2[0-4]|1{0,1}[0-9]){0,1}[0-9])\.){3,3}(?:25[0-5]|(?:2[0-4]|1{0,1}[0-9]){0,1}[0-9])))|(?:fe80:(?::(?:(?:[0-9a-fA-F]){1,4})){0,4}%[0-9a-zA-Z]{1,})|(?::(?:(?::(?:(?:[0-9a-fA-F]){1,4})){1,7}|:))|(?:(?:(?:[0-9a-fA-F]){1,4}):(?:(?::(?:(?:[0-9a-fA-F]){1,4})){1,6}))|(?:(?:(?:(?:[0-9a-fA-F]){1,4}):){1,2}(?::(?:(?:[0-9a-fA-F]){1,4})){1,5})|(?:(?:(?:(?:[0-9a-fA-F]){1,4}):){1,3}(?::(?:(?:[0-9a-fA-F]){1,4})){1,4})|(?:(?:(?:(?:[0-9a-fA-F]){1,4}):){1,4}(?::(?:(?:[0-9a-fA-F]){1,4})){1,3})|(?:(?:(?:(?:[0-9a-fA-F]){1,4}):){1,5}(?::(?:(?:[0-9a-fA-F]){1,4})){1,2})|(?:(?:(?:(?:[0-9a-fA-F]){1,4}):){1,6}:(?:(?:[0-9a-fA-F]){1,4}))|(?:(?:(?:(?:[0-9a-fA-F]){1,4}):){1,7}:)|(?:(?:(?:(?:[0-9a-fA-F]){1,4}):){7,7}(?:(?:[0-9a-fA-F]){1,4}))";

/// What the regular expression `pattern` finds in `text`: the matched
/// substrings, leftmost first and not overlapping, or nothing where the
/// pattern does not compile.
pub uninterp spec fn regex_matches(pattern: Seq<char>, text: Seq<char>) -> Option<Seq<Seq<char>>>;

/// Compiles `pattern` with `regex::Regex::new` and collects what
/// `Regex::find_iter` yields on `text`, each match as the substring that
/// `Match::as_str` gives. The result is taken to depend on the pattern and the
/// text alone; it is `None` exactly where the pattern is refused.
#[verifier::external_body]
fn find_matches(pattern: &str, text: &str) -> (r: Option<Vec<String>>)
    ensures
        optional_string_views(r) == regex_matches(pattern@, text@),
{
    match regex::Regex::new(pattern) {
        Ok(re) => Some(re.find_iter(text).map(|m| m.as_str().to_string()).collect()),
        Err(_) => None,
    }
}

/// The IPv4 address that a candidate denotes, if it is one.
pub open spec fn ipv4_candidate(m: Seq<char>) -> Option<IpAddr> {
    match ipv4_text_value(m) {
        Some(a) => Some(IpAddr::V4(a)),
        None => None,
    }
}

/// The IPv6 address that a candidate denotes, if it is one.
pub open spec fn ipv6_candidate(m: Seq<char>) -> Option<IpAddr> {
    match ipv6_text_value(m) {
        Some(a) => Some(IpAddr::V6(a)),
        None => None,
    }
}

/// The IPv4 addresses among the candidates, in their order.
pub open spec fn ipv4_of_matches(matches: Seq<Seq<char>>) -> Seq<IpAddr> {
    matches.filter_map(|m: Seq<char>| ipv4_candidate(m))
}

/// The IPv6 addresses among the candidates, in their order.
pub open spec fn ipv6_of_matches(matches: Seq<Seq<char>>) -> Seq<IpAddr> {
    matches.filter_map(|m: Seq<char>| ipv6_candidate(m))
}

/// The IPv4 addresses found in `data`: those among the matches of the IPv4
/// pattern. Should the pattern be refused, nothing is found.
pub open spec fn extracted_ipv4(data: Seq<char>) -> Seq<IpAddr> {
    match regex_matches(IPV4_PATTERN@, data) {
        Some(m) => ipv4_of_matches(m),
        None => Seq::empty(),
    }
}

/// The IPv6 addresses found in `data`: those among the matches of the IPv6
/// pattern. Should the pattern be refused, nothing is found.
pub open spec fn extracted_ipv6(data: Seq<char>) -> Seq<IpAddr> {
    match regex_matches(IPV6_PATTERN@, data) {
        Some(m) => ipv6_of_matches(m),
        None => Seq::empty(),
    }
}

/// The addresses found in `data`: those of IPv4 first, then those of IPv6.
pub open spec fn extracted_ips(data: Seq<char>) -> Seq<IpAddr> {
    extracted_ipv4(data) + extracted_ipv6(data)
}

/// Keeps the candidates that are IPv4 addresses.
pub fn ipv4_from_matches(matches: &Vec<String>) -> (ips: Vec<IpAddr>)
    ensures
        ips@ == ipv4_of_matches(string_views(matches@)),
{
    let ghost views = string_views(matches@);
    let ghost f = |m: Seq<char>| ipv4_candidate(m);
    let mut ips: Vec<IpAddr> = Vec::new();
    let mut i: usize = 0;
    while i < matches.len()
        invariant
            i <= matches.len(),
            views == string_views(matches@),
            f == (|m: Seq<char>| ipv4_candidate(m)),
            ips@ == views.take(i as int).filter_map(f),
        decreases matches.len() - i,
    {
        proof {
            views.lemma_filter_map_take_succ(f, i as int);
        }
        match Ipv4Addr::parse(matches[i].as_str()) {
            Some(a) => {
                ips.push(IpAddr::V4(a));
            },
            None => {},
        }
        i = i + 1;
    }
    assert(views.take(matches.len() as int) =~= views);
    ips
}

/// Keeps the candidates that are IPv6 addresses.
pub fn ipv6_from_matches(matches: &Vec<String>) -> (ips: Vec<IpAddr>)
    ensures
        ips@ == ipv6_of_matches(string_views(matches@)),
{
    let ghost views = string_views(matches@);
    let ghost f = |m: Seq<char>| ipv6_candidate(m);
    let mut ips: Vec<IpAddr> = Vec::new();
    let mut i: usize = 0;
    while i < matches.len()
        invariant
            i <= matches.len(),
            views == string_views(matches@),
            f == (|m: Seq<char>| ipv6_candidate(m)),
            ips@ == views.take(i as int).filter_map(f),
        decreases matches.len() - i,
    {
        proof {
            views.lemma_filter_map_take_succ(f, i as int);
        }
        match Ipv6Addr::parse(matches[i].as_str()) {
            Some(a) => {
                ips.push(IpAddr::V6(a));
            },
            None => {},
        }
        i = i + 1;
    }
    assert(views.take(matches.len() as int) =~= views);
    ips
}

/// Every IPv4 address in `data`, in the order of the text.
pub fn get_all_ipv4(data: &str) -> (ips: Vec<IpAddr>)
    ensures
        ips@ == extracted_ipv4(data@),
{
    match find_matches(IPV4_PATTERN, data) {
        Some(matches) => ipv4_from_matches(&matches),
        None => Vec::new(),
    }
}

/// Every IPv6 address in `data`, in the order of the text.
pub fn get_all_ipv6(data: &str) -> (ips: Vec<IpAddr>)
    ensures
        ips@ == extracted_ipv6(data@),
{
    match find_matches(IPV6_PATTERN, data) {
        Some(matches) => ipv6_from_matches(&matches),
        None => Vec::new(),
    }
}

/// Every address in `data`: the IPv4 addresses, then the IPv6 addresses, each
/// family in the order of the text.
pub fn get_all_ips(data: &str) -> (ips: Vec<IpAddr>)
    ensures
        ips@ == extracted_ips(data@),
        ips@ == extracted_ipv4(data@) + extracted_ipv6(data@),
{
    let mut all_ips = get_all_ipv4(data);
    let mut v6 = get_all_ipv6(data);
    all_ips.append(&mut v6);
    all_ips
}

/// Candidates that are well-formed dotted quads are all kept: they are read
/// as the addresses that they are the texts of, one for one and in order.
pub proof fn lemma_dotted_quads_are_kept(addrs: Seq<Ipv4Addr>)
    ensures
        ipv4_of_matches(Seq::new(addrs.len(), |i: int| ipv4_text(addrs[i]))) == Seq::new(
            addrs.len(),
            |i: int| IpAddr::V4(addrs[i]),
        ),
    decreases addrs.len(),
{
    let matches = Seq::new(addrs.len(), |i: int| ipv4_text(addrs[i]));
    let ips = Seq::new(addrs.len(), |i: int| IpAddr::V4(addrs[i]));
    if addrs.len() == 0 {
        assert(ipv4_of_matches(matches) =~= ips);
    } else {
        let init = addrs.drop_last();
        lemma_dotted_quads_are_kept(init);
        lemma_ipv4_text_reads_back(addrs.last());
        assert(matches.drop_last() =~= Seq::new(init.len(), |i: int| ipv4_text(init[i])));
        assert(ipv4_of_matches(matches) =~= ips);
    }
}

/// Candidates that are the texts of IPv6 addresses are all kept, one for one
/// and in order.
pub proof fn lemma_ipv6_texts_are_kept(addrs: Seq<Ipv6Addr>)
    ensures
        ipv6_of_matches(Seq::new(addrs.len(), |i: int| ipv6_text(addrs[i]))) == Seq::new(
            addrs.len(),
            |i: int| IpAddr::V6(addrs[i]),
        ),
    decreases addrs.len(),
{
    let matches = Seq::new(addrs.len(), |i: int| ipv6_text(addrs[i]));
    let ips = Seq::new(addrs.len(), |i: int| IpAddr::V6(addrs[i]));
    if addrs.len() == 0 {
        assert(ipv6_of_matches(matches) =~= ips);
    } else {
        let init = addrs.drop_last();
        lemma_ipv6_texts_are_kept(init);
        lemma_ipv6_text_reads_back(addrs.last());
        assert(matches.drop_last() =~= Seq::new(init.len(), |i: int| ipv6_text(init[i])));
        assert(ipv6_of_matches(matches) =~= ips);
    }
}

/// Every address that comes of an IPv4 candidate is an IPv4 address, and
/// likewise for IPv6.
pub proof fn lemma_family_of_matches(matches: Seq<Seq<char>>)
    ensures
        forall|i: int|
            0 <= i < ipv4_of_matches(matches).len() ==> #[trigger] ipv4_of_matches(matches)[i]
                is V4,
        forall|i: int|
            0 <= i < ipv6_of_matches(matches).len() ==> #[trigger] ipv6_of_matches(matches)[i]
                is V6,
{
    let f4 = |m: Seq<char>| ipv4_candidate(m);
    let f6 = |m: Seq<char>| ipv6_candidate(m);
    assert forall|i: int| 0 <= i < ipv4_of_matches(matches).len() implies #[trigger] ipv4_of_matches(
        matches,
    )[i] is V4 by {
        let ip = ipv4_of_matches(matches)[i];
        assert(matches.filter_map(f4).contains(ip));
        matches.lemma_filter_map_contains(f4, ip);
    }
    assert forall|i: int| 0 <= i < ipv6_of_matches(matches).len() implies #[trigger] ipv6_of_matches(
        matches,
    )[i] is V6 by {
        let ip = ipv6_of_matches(matches)[i];
        assert(matches.filter_map(f6).contains(ip));
        matches.lemma_filter_map_contains(f6, ip);
    }
}

/// In what is extracted from a text, every IPv4 address stands before every
/// IPv6 address, wherever the two stood in the text.
pub proof fn lemma_ipv4_before_ipv6(data: Seq<char>, i: int, j: int)
    requires
        0 <= i < j < extracted_ips(data).len(),
    ensures
        extracted_ips(data)[j] is V4 ==> extracted_ips(data)[i] is V4,
        extracted_ips(data)[i] is V6 ==> extracted_ips(data)[j] is V6,
{
    match regex_matches(IPV4_PATTERN@, data) {
        Some(m) => lemma_family_of_matches(m),
        None => {},
    }
    match regex_matches(IPV6_PATTERN@, data) {
        Some(m) => lemma_family_of_matches(m),
        None => {},
    }
}

/// The addresses of `s` without repetition: each one stands where it first
/// occurs in `s`.
pub open spec fn distinct(s: Seq<IpAddr>) -> Seq<IpAddr>
    decreases s.len(),
{
    if s.len() == 0 {
        Seq::empty()
    } else {
        let before = distinct(s.drop_last());
        if before.contains(s.last()) {
            before
        } else {
            before.push(s.last())
        }
    }
}

/// The addresses of `s` that can be routed, in their order.
pub open spec fn routable_only(s: Seq<IpAddr>) -> Seq<IpAddr> {
    s.filter(|ip: IpAddr| ip.routable())
}

/// `distinct(s)` holds the addresses of `s`, each of them once.
pub proof fn lemma_distinct_elements(s: Seq<IpAddr>)
    ensures
        distinct(s).no_duplicates(),
        distinct(s).len() <= s.len(),
        forall|x: IpAddr| distinct(s).contains(x) <==> s.contains(x),
    decreases s.len(),
{
    if s.len() > 0 {
        let before = distinct(s.drop_last());
        lemma_distinct_elements(s.drop_last());
        assert forall|x: IpAddr| distinct(s).contains(x) <==> s.contains(x) by {
            if s.contains(x) {
                let i = choose|i: int| 0 <= i < s.len() && s[i] == x;
                if i < s.len() - 1 {
                    assert(s.drop_last()[i] == x);
                    assert(s.drop_last().contains(x));
                    assert(before.contains(x));
                    let j = choose|j: int| 0 <= j < before.len() && before[j] == x;
                    assert(distinct(s)[j] == x);
                } else if !before.contains(x) {
                    assert(distinct(s)[before.len() as int] == x);
                }
            }
            if distinct(s).contains(x) {
                let j = choose|j: int| 0 <= j < distinct(s).len() && distinct(s)[j] == x;
                if j < before.len() {
                    assert(before[j] == x);
                    assert(before.contains(x));
                    assert(s.drop_last().contains(x));
                    let i = choose|i: int| 0 <= i < s.drop_last().len() && s.drop_last()[i] == x;
                    assert(s[i] == x);
                } else {
                    assert(s[s.len() - 1] == x);
                }
            }
        }
    }
}

/// A list without repetition is left as it is.
pub proof fn lemma_distinct_fixes_distinct(s: Seq<IpAddr>)
    requires
        s.no_duplicates(),
    ensures
        distinct(s) == s,
    decreases s.len(),
{
    if s.len() > 0 {
        let init = s.drop_last();
        lemma_distinct_fixes_distinct(init);
        if init.contains(s.last()) {
            let i = choose|i: int| 0 <= i < init.len() && init[i] == s.last();
            assert(s[i] == s[s.len() - 1]);
        }
        assert(init.push(s.last()) =~= s);
    }
}

/// Removing repetitions a second time changes nothing.
pub proof fn lemma_distinct_idempotent(s: Seq<IpAddr>)
    ensures
        distinct(distinct(s)) == distinct(s),
{
    lemma_distinct_elements(s);
    lemma_distinct_fixes_distinct(distinct(s));
}

/// The place of the first occurrence of an address does not move when the
/// list grows at its end.
proof fn lemma_first_index_stable(s: Seq<IpAddr>, x: IpAddr)
    requires
        s.len() > 0,
        s.drop_last().contains(x),
    ensures
        s.index_of_first(x) == s.drop_last().index_of_first(x),
{
    let init = s.drop_last();
    s.index_of_first_ensures(x);
    init.index_of_first_ensures(x);
    let i = init.index_of_first(x).unwrap();
    assert(s[i] == x);
    assert(s.contains(x));
    let k = s.index_of_first(x).unwrap();
    if k < i {
        assert(init[k] == x);
    } else if i < k {
        assert(s[i] == x);
    }
}

/// `distinct(s)` keeps the order of first occurrence: of two addresses in it,
/// the earlier one is the one that occurs first in `s`.
pub proof fn lemma_distinct_keeps_order(s: Seq<IpAddr>, i: int, j: int)
    requires
        0 <= i < j < distinct(s).len(),
    ensures
        s.index_of_first(distinct(s)[i]) is Some,
        s.index_of_first(distinct(s)[j]) is Some,
        s.index_of_first(distinct(s)[i]).unwrap() < s.index_of_first(distinct(s)[j]).unwrap(),
    decreases s.len(),
{
    let d = distinct(s);
    let init = s.drop_last();
    let before = distinct(init);
    lemma_distinct_elements(s);
    lemma_distinct_elements(init);
    assert(d.contains(d[i]));
    assert(d.contains(d[j]));
    s.index_of_first_ensures(d[i]);
    s.index_of_first_ensures(d[j]);
    assert(before[i] == d[i]);
    assert(before.contains(d[i]));
    lemma_first_index_stable(s, d[i]);
    init.index_of_first_ensures(d[i]);
    if j < before.len() {
        assert(before[j] == d[j]);
        assert(before.contains(d[j]));
        lemma_first_index_stable(s, d[j]);
        lemma_distinct_keeps_order(init, i, j);
    } else {
        assert(d[j] == s.last());
        assert(!init.contains(s.last()));
        let k = s.index_of_first(d[j]).unwrap();
        if k < s.len() - 1 {
            assert(init[k] == s.last());
        }
    }
}

/// What is kept can be routed and was in the list; what can be routed is kept.
pub proof fn lemma_routable_only_elements(s: Seq<IpAddr>)
    ensures
        routable_only(s).len() <= s.len(),
        forall|x: IpAddr| routable_only(s).contains(x) <==> s.contains(x) && x.routable(),
{
    let pred = |ip: IpAddr| ip.routable();
    let kept = s.filter(pred);
    s.lemma_filter_len(pred);
    assert forall|x: IpAddr| kept.contains(x) <==> s.contains(x) && x.routable() by {
        if kept.contains(x) {
            let i = choose|i: int| 0 <= i < kept.len() && kept[i] == x;
            s.lemma_filter_pred(pred, i);
            s.lemma_filter_contains_rev(pred, x);
        }
        if s.contains(x) && x.routable() {
            let i = choose|i: int| 0 <= i < s.len() && s[i] == x;
            s.lemma_filter_contains(pred, i);
        }
    }
}

/// The reserved ranges that are never routed: the unspecified address, the
/// loopback addresses and the multicast ranges of both families.
pub proof fn lemma_reserved_not_routable(ip: IpAddr)
    ensures
        ip == IpAddr::V4(Ipv4Addr { a: 0, b: 0, c: 0, d: 0 }) ==> !ip.routable(),
        (ip matches IpAddr::V4(v4) && v4.a == 127) ==> !ip.routable(),
        (ip matches IpAddr::V4(v4) && 224 <= v4.a <= 239) ==> !ip.routable(),
        ip == IpAddr::V6(Ipv6Addr { s0: 0, s1: 0, s2: 0, s3: 0, s4: 0, s5: 0, s6: 0, s7: 0 })
            ==> !ip.routable(),
        ip == IpAddr::V6(Ipv6Addr { s0: 0, s1: 0, s2: 0, s3: 0, s4: 0, s5: 0, s6: 0, s7: 1 })
            ==> !ip.routable(),
        (ip matches IpAddr::V6(v6) && v6.s0 >= 0xff00) ==> !ip.routable(),
        ip == IpAddr::V4(Ipv4Addr { a: 8, b: 8, c: 8, d: 8 }) ==> ip.routable(),
{
}

/// Whether `list` holds `ip`.
fn contains_ip(list: &Vec<IpAddr>, ip: IpAddr) -> (r: bool)
    ensures
        r == list@.contains(ip),
{
    let mut i: usize = 0;
    while i < list.len()
        invariant
            i <= list.len(),
            forall|j: int| 0 <= j < i ==> list@[j] != ip,
        decreases list.len() - i,
    {
        if list[i] == ip {
            return true;
        }
        i = i + 1;
    }
    false
}

/// Removes the repetitions: each address stays where it first occurs.
pub fn get_distinct_ips(ips: Vec<IpAddr>) -> (distinct_ips: Vec<IpAddr>)
    ensures
        distinct_ips@ == distinct(ips@),
{
    let mut distinct_ips: Vec<IpAddr> = Vec::new();
    let mut i: usize = 0;
    while i < ips.len()
        invariant
            i <= ips.len(),
            distinct_ips@ == distinct(ips@.take(i as int)),
        decreases ips.len() - i,
    {
        let ip = ips[i];
        assert(ips@.take(i + 1).drop_last() =~= ips@.take(i as int));
        if !contains_ip(&distinct_ips, ip) {
            distinct_ips.push(ip);
        }
        i = i + 1;
    }
    assert(ips@.take(ips.len() as int) =~= ips@);
    distinct_ips
}

/// Keeps the addresses that can be routed, in their order: none that is
/// unspecified, loopback or multicast.
pub fn get_routable_ips(ips: Vec<IpAddr>) -> (routable: Vec<IpAddr>)
    ensures
        routable@ == routable_only(ips@),
{
    let ghost pred = |ip: IpAddr| ip.routable();
    let mut routable: Vec<IpAddr> = Vec::new();
    let mut i: usize = 0;
    assert(ips@.take(0).filter(pred) =~= Seq::<IpAddr>::empty()) by {
        reveal(Seq::filter);
    }
    while i < ips.len()
        invariant
            i <= ips.len(),
            pred == (|ip: IpAddr| ip.routable()),
            routable@ == ips@.take(i as int).filter(pred),
        decreases ips.len() - i,
    {
        let ip = ips[i];
        proof {
            ips@.take(i as int).lemma_filter_push(ip, pred);
            assert(ips@.take(i as int).push(ip) =~= ips@.take(i + 1));
        }
        if ip.is_routable() {
            routable.push(ip);
        }
        i = i + 1;
    }
    assert(ips@.take(ips.len() as int) =~= ips@);
    routable
}

} // verus!
