//! Addresses of one node's slice.

use my_k8s::ipam::{IpAllocator, IpamError, Ipv4Addr};

fn ip(s: &str) -> Ipv4Addr {
    Ipv4Addr::parse(s).unwrap()
}

fn take(a: &mut IpAllocator) -> Ipv4Addr {
    a.allocate().expect("allocate should succeed")
}

#[test]
fn from_cidr_accepts_valid_and_rejects_malformed() {
    assert!(IpAllocator::from_cidr("10.244.1.0/24").is_ok());
    // Wrong mask, non-.0 base, missing slash, garbage -> all errors.
    assert!(IpAllocator::from_cidr("10.244.1.0/16").is_err());
    assert!(IpAllocator::from_cidr("10.244.1.5/24").is_err());
    assert!(IpAllocator::from_cidr("10.244.1.0").is_err());
    assert!(IpAllocator::from_cidr("not-an-ip/24").is_err());
}

#[test]
fn allocate_is_sequential_starting_at_dot_two() {
    let mut a = IpAllocator::from_cidr("10.244.1.0/24").unwrap();
    // .0 (network) and .1 (gateway) are skipped - first handout is .2.
    assert_eq!(take(&mut a), ip("10.244.1.2"));
    assert_eq!(take(&mut a), ip("10.244.1.3"));
    assert_eq!(take(&mut a), ip("10.244.1.4"));
}

#[test]
fn reserve_blocks_that_address_from_allocation() {
    let mut a = IpAllocator::from_cidr("10.244.1.0/24").unwrap();
    // Reserve a host AHEAD of the cursor (recovery of a survivor at .3).
    a.reserve(ip("10.244.1.3")).unwrap();
    // Sequential allocation must step over the reserved .3.
    assert_eq!(take(&mut a), ip("10.244.1.2"));
    assert_eq!(take(&mut a), ip("10.244.1.4"));
    assert!(
        std::iter::repeat_with(|| take(&mut a))
            .take(20)
            .all(|got| got != ip("10.244.1.3")),
        "reserved .3 must never be handed out",
    );
}

#[test]
fn released_addresses_are_reused_before_advancing() {
    let mut a = IpAllocator::from_cidr("10.244.1.0/24").unwrap();
    let _two = take(&mut a); // .2
    let three = take(&mut a); // .3
    let _four = take(&mut a); // .4

    a.release(three); // .3 back to the pool
    // Reuse-first: the next allocation returns .3, not .5.
    assert_eq!(take(&mut a), ip("10.244.1.3"));
    assert_eq!(take(&mut a), ip("10.244.1.5"));
}

#[test]
fn release_of_unallocated_is_a_noop() {
    let mut a = IpAllocator::from_cidr("10.244.1.0/24").unwrap();
    // Releasing an address we never handed out must NOT seed the reuse bin;
    // the next allocate still starts at .2 (not the released .9).
    a.release(ip("10.244.1.9"));
    assert_eq!(take(&mut a), ip("10.244.1.2"));
}

#[test]
fn reserve_rejects_out_of_range_and_reserved_hosts() {
    let mut a = IpAllocator::from_cidr("10.244.1.0/24").unwrap();
    assert!(a.reserve(ip("10.244.2.5")).is_err(), "different /24");
    assert!(a.reserve(ip("10.244.1.0")).is_err(), ".0 network");
    assert!(a.reserve(ip("10.244.1.1")).is_err(), ".1 gateway");
    assert!(a.reserve(ip("10.244.1.255")).is_err(), ".255 broadcast");
}

#[test]
fn pool_exhausts_after_253_addresses() {
    let mut a = IpAllocator::from_cidr("10.244.1.0/24").unwrap();
    // Usable hosts are .2 ..= .254 -> exactly 253 addresses.
    for _ in 0..253 {
        a.allocate().expect("within capacity");
    }
    let err = a.allocate().expect_err("254th must fail");
    assert!(err.message().contains("exhausted"), "got: {err:?}");
}

#[test]
fn addresses_are_read_and_written() {
    let got = ip("10.244.1.2");
    assert_eq!((got.a, got.b, got.c, got.d), (10, 244, 1, 2));
    for s in ["0.0.0.0", "10.244.1.2", "255.255.255.255"] {
        assert_eq!(ip(s).text(), s);
    }
    for s in ["", "1.2.3", "1.2.3.4.5", "256.1.1.1", "1.2.3.x", "01.2.3.4", " 1.2.3.4", "1..2.3"] {
        assert!(Ipv4Addr::parse(s).is_none(), "{s:?}");
    }
}

#[test]
fn each_bad_slice_has_its_error() {
    let refused = |cidr: &str| IpAllocator::from_cidr(cidr).err().unwrap();
    let e = refused("10.244.1.0");
    assert!(matches!(e, IpamError::MissingPrefix { .. }));
    assert_eq!(e.message(), "missing /prefix in \"10.244.1.0\"");
    let e = refused("10.244.1.0/16");
    assert!(matches!(e, IpamError::UnsupportedMask { .. }));
    assert_eq!(e.message(), "only /24 CIDRs supported, got /16 in \"10.244.1.0/16\"");
    let e = refused("not-an-ip/24");
    assert!(matches!(e, IpamError::BadAddress { .. }));
    assert_eq!(e.message(), "bad CIDR address \"not-an-ip\": invalid IPv4 address syntax");
    let e = refused("10.244.1.5/24");
    assert!(matches!(e, IpamError::BaseNotZero { .. }));
    assert_eq!(e.message(), "/24 base must end in .0, got 10.244.1.5");
    let mut a = IpAllocator::from_cidr("10.244.1.0/24").unwrap();
    let e = a.reserve(ip("10.244.2.5")).err().unwrap();
    assert_eq!(e.message(), "10.244.2.5 not in 10.244.1.0/24");
    let e = a.reserve(ip("10.244.1.1")).err().unwrap();
    assert_eq!(e.message(), "10.244.1.1 is a reserved host (.0/.1/.255)");
}

#[test]
fn no_address_is_handed_out_twice() {
    let mut a = IpAllocator::from_cidr("10.0.9.0/24").unwrap();
    let mut seen: Vec<u8> = Vec::new();
    for _ in 0..253 {
        let got = take(&mut a);
        assert!(!seen.contains(&got.d));
        seen.push(got.d);
    }
    a.release(ip("10.0.9.77"));
    assert_eq!(take(&mut a), ip("10.0.9.77"));
    assert_eq!(a.allocate().err().unwrap().message(), "IP pool exhausted for 10.0.9.0/24");
}
