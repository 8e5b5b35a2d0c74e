use libchickadee::addr::{IpAddr, Ipv4Addr, Ipv6Addr};
use libchickadee::util::{
    get_all_ips, get_all_ipv4, get_all_ipv6, get_distinct_ips, get_routable_ips,
    ipv4_from_matches, ipv6_from_matches,
};

#[test]
fn test_get_routable_ips() {
    let tests = vec![(
        vec![
            IpAddr::V4(Ipv4Addr::new(127, 0, 0, 1)),
            IpAddr::V4(Ipv4Addr::new(8, 8, 8, 8)),
            IpAddr::V4(Ipv4Addr::new(0, 0, 0, 0)),
            IpAddr::V6(Ipv6Addr::new(0xff00, 0, 0, 0, 0, 0, 0, 0)),
        ],
        vec![IpAddr::V4(Ipv4Addr::new(8, 8, 8, 8))],
    )];

    for test in tests {
        let actual = get_routable_ips(test.0);
        assert_eq!(test.1, actual);
    }
}

#[test]
fn test_get_distinct_ips() {
    let tests = vec![(
        vec![
            IpAddr::V4(Ipv4Addr::new(127, 0, 0, 1)),
            IpAddr::V4(Ipv4Addr::new(127, 0, 0, 1)),
            IpAddr::V4(Ipv4Addr::new(8, 8, 8, 8)),
            IpAddr::V4(Ipv4Addr::new(10, 100, 27, 43)),
            IpAddr::V4(Ipv4Addr::new(10, 100, 27, 43)),
        ],
        vec![
            IpAddr::V4(Ipv4Addr::new(127, 0, 0, 1)),
            IpAddr::V4(Ipv4Addr::new(8, 8, 8, 8)),
            IpAddr::V4(Ipv4Addr::new(10, 100, 27, 43)),
        ],
    )];

    for test in tests {
        let actual = get_distinct_ips(test.0);
        assert_eq!(test.1, actual);
    }
}

#[test]
fn test_get_all_ipv4() {
    let tests = vec![
        ("8.8.8.8", vec![IpAddr::V4(Ipv4Addr::new(8, 8, 8, 8))]),
        (
            "some127.0.0.1data8.8.8.8here10.100.27.43",
            vec![
                IpAddr::V4(Ipv4Addr::new(127, 0, 0, 1)),
                IpAddr::V4(Ipv4Addr::new(8, 8, 8, 8)),
                IpAddr::V4(Ipv4Addr::new(10, 100, 27, 43)),
            ],
        ),
    ];
    for test in tests {
        let actual = get_all_ipv4(test.0);
        let expected = test.1;
        assert_eq!(expected, actual)
    }
}

#[test]
fn test_get_all_ipv6() {
    let tests = vec![
        (
            "2001:4860:4860::8844",
            vec![IpAddr::V6(Ipv6Addr::new(
                0x2001, 0x4860, 0x4860, 0x0, 0x0, 0x0, 0x0, 0x8844,
            ))],
        ),
        (
            "2620:119:53::53,2606:4700:4700::111",
            vec![
                IpAddr::V6(Ipv6Addr::new(0x2620, 0x119, 0x53, 0x0, 0x0, 0x0, 0x0, 0x53)),
                IpAddr::V6(Ipv6Addr::new(
                    0x2606, 0x4700, 0x4700, 0x0, 0x0, 0x0, 0x0, 0x111,
                )),
            ],
        ),
    ];
    for test in tests {
        let actual = get_all_ipv6(test.0);
        let expected = test.1;
        assert_eq!(expected, actual)
    }
}

#[test]
fn mixed_text_lists_ipv4_before_ipv6() {
    let actual = get_all_ips("1.1.1.1,sample,127.0.0.1,data,2001:4860:4860::8844,foo");
    assert_eq!(
        vec![
            IpAddr::V4(Ipv4Addr::new(1, 1, 1, 1)),
            IpAddr::V4(Ipv4Addr::new(127, 0, 0, 1)),
            IpAddr::V6(Ipv6Addr::new(0x2001, 0x4860, 0x4860, 0, 0, 0, 0, 0x8844)),
        ],
        actual
    );
}

#[test]
fn a_literal_string_gives_its_addresses_in_order() {
    let actual = get_all_ips("1.1.1.1,2.2.2.2\t3.3.3.3\n4.4.4.4");
    assert_eq!(
        vec![
            IpAddr::V4(Ipv4Addr::new(1, 1, 1, 1)),
            IpAddr::V4(Ipv4Addr::new(2, 2, 2, 2)),
            IpAddr::V4(Ipv4Addr::new(3, 3, 3, 3)),
            IpAddr::V4(Ipv4Addr::new(4, 4, 4, 4)),
        ],
        actual
    );
}

#[test]
fn addresses_need_no_space_around_them() {
    assert_eq!(vec![IpAddr::V4(Ipv4Addr::new(8, 8, 8, 8))], get_all_ipv4("a8.8.8.8a"));
    assert_eq!(Vec::<IpAddr>::new(), get_all_ipv4("no address here: 1.2.3"));
    assert_eq!(Vec::<IpAddr>::new(), get_all_ips(""));
}

#[test]
fn candidates_that_are_no_addresses_are_dropped() {
    assert_eq!(
        vec![IpAddr::V4(Ipv4Addr::new(5, 6, 7, 8))],
        get_all_ipv4("01.2.3.4 5.6.7.8")
    );
    assert_eq!(
        vec![IpAddr::V6(Ipv6Addr::new(0x2001, 0xdb8, 0, 0, 0, 0, 0, 1))],
        get_all_ipv6("fe80::1%eth0 2001:db8::1")
    );
}

#[test]
fn candidates_are_read_one_for_one() {
    let matches = vec![
        String::from("1.2.3.4"),
        String::from("::1"),
        String::from("09.1.1.1"),
        String::from("4.3.2.1"),
        String::from("1.2.3.4"),
    ];
    assert_eq!(
        vec![
            IpAddr::V4(Ipv4Addr::new(1, 2, 3, 4)),
            IpAddr::V4(Ipv4Addr::new(4, 3, 2, 1)),
            IpAddr::V4(Ipv4Addr::new(1, 2, 3, 4)),
        ],
        ipv4_from_matches(&matches)
    );
    assert_eq!(
        vec![IpAddr::V6(Ipv6Addr::new(0, 0, 0, 0, 0, 0, 0, 1))],
        ipv6_from_matches(&matches)
    );
}

#[test]
fn distinct_is_idempotent_and_keeps_first_occurrences() {
    let a = IpAddr::V4(Ipv4Addr::new(1, 1, 1, 1));
    let b = IpAddr::V6(Ipv6Addr::new(0, 0, 0, 0, 0, 0, 0, 1));
    let c = IpAddr::V4(Ipv4Addr::new(0, 0, 0, 1));
    let once = get_distinct_ips(vec![b, a, b, c, a, a, c, b]);
    assert_eq!(vec![b, a, c], once);
    assert_eq!(once.clone(), get_distinct_ips(once));
    assert_eq!(Vec::<IpAddr>::new(), get_distinct_ips(vec![]));
}

#[test]
fn routable_filter_keeps_order_and_repeats() {
    let good = IpAddr::V4(Ipv4Addr::new(8, 8, 8, 8));
    let other = IpAddr::V6(Ipv6Addr::new(0x2001, 0x4860, 0x4860, 0, 0, 0, 0, 0x8888));
    let actual = get_routable_ips(vec![
        other,
        IpAddr::V4(Ipv4Addr::new(224, 0, 0, 251)),
        good,
        IpAddr::V4(Ipv4Addr::new(239, 255, 255, 250)),
        IpAddr::V6(Ipv6Addr::new(0, 0, 0, 0, 0, 0, 0, 0)),
        IpAddr::V6(Ipv6Addr::new(0, 0, 0, 0, 0, 0, 0, 1)),
        IpAddr::V6(Ipv6Addr::new(0xff02, 0, 0, 0, 0, 0, 0, 0xfb)),
        IpAddr::V4(Ipv4Addr::new(127, 8, 8, 8)),
        good,
        IpAddr::V4(Ipv4Addr::new(10, 0, 0, 1)),
    ]);
    assert_eq!(vec![other, good, good, IpAddr::V4(Ipv4Addr::new(10, 0, 0, 1))], actual);
}
