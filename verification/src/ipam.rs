//! Host-local address allocation. Hands out pod addresses from one /24 slice
//! of the cluster's pod range. Each node owns a slice of its own, so two nodes
//! never hand out the same address: the partition is the coordination.

use std::collections::BTreeSet;

use vstd::prelude::*;

use crate::text;

verus! {

/// An IPv4 address.
#[derive(Debug, Clone, Copy, PartialEq, Eq, Structural)]
pub struct Ipv4Addr {
    pub a: u8,
    pub b: u8,
    pub c: u8,
    pub d: u8,
}

/// The value of one part of a dotted address: one to three digits, at most
/// 255, no zero in front.
pub open spec fn octet_value(part: Seq<char>) -> Option<u8> {
    if 1 <= part.len() <= 3 && (part.len() > 1 ==> part[0] != '0') && part[0] != '+' {
        match text::parsed_u64(part) {
            Some(value) => if value <= 255 {
                Some(value as u8)
            } else {
                None
            },
            None => None,
        }
    } else {
        None
    }
}

/// The address that a dotted text stands for.
pub open spec fn parsed_address(s: Seq<char>) -> Option<Ipv4Addr> {
    let parts = text::pieces(s, '.');
    if parts.len() != 4 {
        None
    } else {
        match (
            octet_value(parts[0]),
            octet_value(parts[1]),
            octet_value(parts[2]),
            octet_value(parts[3]),
        ) {
            (Some(a), Some(b), Some(c), Some(d)) => Some(Ipv4Addr { a, b, c, d }),
            _ => None,
        }
    }
}

/// The dotted text of an address.
pub open spec fn address_chars(ip: Ipv4Addr) -> Seq<char> {
    text::decimal_chars(ip.a as nat) + "."@ + text::decimal_chars(ip.b as nat) + "."@
        + text::decimal_chars(ip.c as nat) + "."@ + text::decimal_chars(ip.d as nat)
}

fn octet(part: &str) -> (value: Option<u8>)
    ensures
        value == octet_value(part@),
{
    let len: usize = part.unicode_len();
    if len < 1 || len > 3 {
        return None;
    }
    let first: char = part.get_char(0);
    if (len > 1 && first == '0') || first == '+' {
        return None;
    }
    match text::parse_u64(part) {
        Some(value) => if value <= 255 {
            Some(value as u8)
        } else {
            None
        },
        None => None,
    }
}

impl Ipv4Addr {
    pub fn new(a: u8, b: u8, c: u8, d: u8) -> (ip: Self)
        ensures
            ip == (Ipv4Addr { a, b, c, d }),
    {
        Ipv4Addr { a, b, c, d }
    }

    /// Reads a dotted address.
    pub fn parse(s: &str) -> (ip: Option<Self>)
        ensures
            ip == parsed_address(s@),
    {
        let parts = text::split(s, '.');
        if parts.len() != 4 {
            return None;
        }
        let a: Option<u8> = octet(parts[0].as_str());
        let b: Option<u8> = octet(parts[1].as_str());
        let c: Option<u8> = octet(parts[2].as_str());
        let d: Option<u8> = octet(parts[3].as_str());
        match (a, b, c, d) {
            (Some(a), Some(b), Some(c), Some(d)) => Some(Ipv4Addr { a, b, c, d }),
            _ => None,
        }
    }

    /// The dotted text.
    pub fn text(&self) -> (s: String)
        ensures
            s@ == address_chars(*self),
    {
        let mut out = text::decimal(self.a as u64);
        out.append(".");
        text::push_decimal(&mut out, self.b as u64);
        out.append(".");
        text::push_decimal(&mut out, self.c as u64);
        out.append(".");
        text::push_decimal(&mut out, self.d as u64);
        out
    }
}

/// Why an allocator refused.
#[derive(Debug, PartialEq)]
pub enum IpamError {
    MissingPrefix { cidr: String },
    UnsupportedMask { mask: String, cidr: String },
    BadAddress { addr: String },
    BaseNotZero { addr: String },
    Exhausted { prefix: (u8, u8, u8) },
    OutOfSlice { ip: Ipv4Addr, prefix: (u8, u8, u8) },
    ReservedHost { ip: Ipv4Addr },
}

/// What an `IpamError` holds.
#[verifier::ext_equal]
pub enum IpamErrorView {
    MissingPrefix { cidr: Seq<char> },
    UnsupportedMask { mask: Seq<char>, cidr: Seq<char> },
    BadAddress { addr: Seq<char> },
    BaseNotZero { addr: Seq<char> },
    Exhausted { prefix: (u8, u8, u8) },
    OutOfSlice { ip: Ipv4Addr, prefix: (u8, u8, u8) },
    ReservedHost { ip: Ipv4Addr },
}

impl DeepView for IpamError {
    type V = IpamErrorView;

    open spec fn deep_view(&self) -> IpamErrorView {
        match self {
            IpamError::MissingPrefix { cidr } => IpamErrorView::MissingPrefix { cidr: cidr@ },
            IpamError::UnsupportedMask { mask, cidr } => IpamErrorView::UnsupportedMask {
                mask: mask@,
                cidr: cidr@,
            },
            IpamError::BadAddress { addr } => IpamErrorView::BadAddress { addr: addr@ },
            IpamError::BaseNotZero { addr } => IpamErrorView::BaseNotZero { addr: addr@ },
            IpamError::Exhausted { prefix } => IpamErrorView::Exhausted { prefix: *prefix },
            IpamError::OutOfSlice { ip, prefix } => IpamErrorView::OutOfSlice {
                ip: *ip,
                prefix: *prefix,
            },
            IpamError::ReservedHost { ip } => IpamErrorView::ReservedHost { ip: *ip },
        }
    }
}

pub open spec fn slice_chars(prefix: (u8, u8, u8)) -> Seq<char> {
    text::decimal_chars(prefix.0 as nat) + "."@ + text::decimal_chars(prefix.1 as nat) + "."@
        + text::decimal_chars(prefix.2 as nat) + ".0/24"@
}

pub open spec fn error_chars(e: IpamErrorView) -> Seq<char> {
    match e {
        IpamErrorView::MissingPrefix { cidr } => "missing /prefix in "@ + text::quoted_chars(cidr),
        IpamErrorView::UnsupportedMask { mask, cidr } => "only /24 CIDRs supported, got /"@ + mask
            + " in "@ + text::quoted_chars(cidr),
        IpamErrorView::BadAddress { addr } => "bad CIDR address "@ + text::quoted_chars(addr)
            + ": invalid IPv4 address syntax"@,
        IpamErrorView::BaseNotZero { addr } => "/24 base must end in .0, got "@ + addr,
        IpamErrorView::Exhausted { prefix } => "IP pool exhausted for "@ + slice_chars(prefix),
        IpamErrorView::OutOfSlice { ip, prefix } => address_chars(ip) + " not in "@ + slice_chars(
            prefix,
        ),
        IpamErrorView::ReservedHost { ip } => address_chars(ip)
            + " is a reserved host (.0/.1/.255)"@,
    }
}

fn push_slice(out: &mut String, prefix: (u8, u8, u8))
    ensures
        final(out)@ == old(out)@ + slice_chars(prefix),
{
    text::push_decimal(out, prefix.0 as u64);
    out.append(".");
    text::push_decimal(out, prefix.1 as u64);
    out.append(".");
    text::push_decimal(out, prefix.2 as u64);
    out.append(".0/24");
    assert(out@ =~= old(out)@ + slice_chars(prefix));
}

impl IpamError {
    /// The error in words.
    pub fn message(&self) -> (s: String)
        ensures
            s@ == error_chars(self.deep_view()),
    {
        match self {
            IpamError::MissingPrefix { cidr } => {
                let mut s = "missing /prefix in ".to_owned();
                s.append(text::quoted(cidr.as_str()).as_str());
                s
            },
            IpamError::UnsupportedMask { mask, cidr } => {
                let mut s = "only /24 CIDRs supported, got /".to_owned();
                s.append(mask.as_str());
                s.append(" in ");
                s.append(text::quoted(cidr.as_str()).as_str());
                s
            },
            IpamError::BadAddress { addr } => {
                let mut s = "bad CIDR address ".to_owned();
                s.append(text::quoted(addr.as_str()).as_str());
                s.append(": invalid IPv4 address syntax");
                s
            },
            IpamError::BaseNotZero { addr } => {
                let mut s = "/24 base must end in .0, got ".to_owned();
                s.append(addr.as_str());
                s
            },
            IpamError::Exhausted { prefix } => {
                let mut s = "IP pool exhausted for ".to_owned();
                push_slice(&mut s, *prefix);
                s
            },
            IpamError::OutOfSlice { ip, prefix } => {
                let mut s = ip.text();
                s.append(" not in ");
                push_slice(&mut s, *prefix);
                s
            },
            IpamError::ReservedHost { ip } => {
                let mut s = ip.text();
                s.append(" is a reserved host (.0/.1/.255)");
                s
            },
        }
    }
}

/// Host octets that are never handed out, in any slice: .0 is the network, .1
/// the gateway, .255 the broadcast address. That leaves 253 addresses.
pub const FIRST_HOST: u16 = 2;

pub const BROADCAST_HOST: u16 = 255;

pub open spec fn is_host(octet: u8) -> bool {
    FIRST_HOST <= octet < BROADCAST_HOST
}

/// The state of an allocator.
#[verifier::ext_equal]
pub struct PoolView {
    /// The first three octets of the slice.
    pub prefix: (u8, u8, u8),
    /// The next host to try when no released address is waiting.
    pub next: u16,
    /// Addresses that were given back.
    pub released: Set<u8>,
    /// Addresses that are in use.
    pub allocated: Set<u8>,
}

impl PoolView {
    /// No address is both in use and given back, and every host that the
    /// cursor has passed is one or the other.
    pub open spec fn wf(self) -> bool {
        &&& FIRST_HOST <= self.next <= BROADCAST_HOST
        &&& self.released.finite()
        &&& self.allocated.finite()
        &&& self.released.disjoint(self.allocated)
        &&& forall|h: u8| #[trigger] self.released.contains(h) ==> is_host(h)
        &&& forall|h: u8| #[trigger] self.allocated.contains(h) ==> is_host(h)
        &&& forall|h: u8|
            FIRST_HOST <= h < self.next ==> #[trigger] self.allocated.contains(h)
                || self.released.contains(h)
    }

    pub open spec fn address(self, host: u8) -> Ipv4Addr {
        Ipv4Addr { a: self.prefix.0, b: self.prefix.1, c: self.prefix.2, d: host }
    }

    /// Whether an address is one that this allocator may hand out.
    pub open spec fn owns(self, ip: Ipv4Addr) -> bool {
        (ip.a, ip.b, ip.c) == self.prefix && is_host(ip.d)
    }

    /// The host that is handed out next: the smallest one given back, else
    /// the first one from the cursor on that is not in use.
    pub open spec fn hands_out(self, host: u8) -> bool {
        if self.released.len() > 0 {
            self.released.contains(host) && forall|h: u8| #[trigger]
                self.released.contains(h) ==> host <= h
        } else {
            &&& self.next <= host < BROADCAST_HOST
            &&& !self.allocated.contains(host)
            &&& forall|h: u8| self.next <= h < host ==> #[trigger] self.allocated.contains(h)
        }
    }

    /// The pool after a host was handed out.
    pub open spec fn after_handing_out(self, host: u8) -> PoolView {
        if self.released.len() > 0 {
            PoolView {
                released: self.released.remove(host),
                allocated: self.allocated.insert(host),
                ..self
            }
        } else {
            PoolView {
                next: (host + 1) as u16,
                allocated: self.allocated.insert(host),
                ..self
            }
        }
    }

    /// Whether every address is in use.
    pub open spec fn exhausted(self) -> bool {
        forall|h: u8| is_host(h) ==> #[trigger] self.allocated.contains(h)
    }
}

/// Why a CIDR is refused, or the slice that it names.
pub open spec fn slice_of(cidr: Seq<char>) -> Result<(u8, u8, u8), IpamErrorView> {
    match text::halves(cidr, '/') {
        None => Err(IpamErrorView::MissingPrefix { cidr }),
        Some((addr, mask)) => if mask != "24"@ {
            Err(IpamErrorView::UnsupportedMask { mask, cidr })
        } else {
            match parsed_address(addr) {
                None => Err(IpamErrorView::BadAddress { addr }),
                Some(ip) => if ip.d != 0 {
                    Err(IpamErrorView::BaseNotZero { addr })
                } else {
                    Ok((ip.a, ip.b, ip.c))
                },
            }
        },
    }
}

/// Allocates addresses from a single /24. The state is in memory only; a
/// kubelet rebuilds it on restart by reserving the addresses in use.
pub struct IpAllocator {
    prefix: (u8, u8, u8),
    next: u16,
    released: BTreeSet<u8>,
    allocated: BTreeSet<u8>,
}

impl View for IpAllocator {
    type V = PoolView;

    closed spec fn view(&self) -> PoolView {
        PoolView {
            prefix: self.prefix,
            next: self.next,
            released: self.released@,
            allocated: self.allocated@,
        }
    }
}

impl IpAllocator {
    pub fn from_cidr(cidr: &str) -> (r: Result<Self, IpamError>)
        ensures
            match r {
                Ok(pool) => {
                    &&& slice_of(cidr@) == Ok::<(u8, u8, u8), IpamErrorView>(pool@.prefix)
                    &&& pool@.wf()
                    &&& pool@ == PoolView {
                        prefix: pool@.prefix,
                        next: FIRST_HOST,
                        released: Set::empty(),
                        allocated: Set::empty(),
                    }
                },
                Err(e) => slice_of(cidr@) == Err::<(u8, u8, u8), IpamErrorView>(e.deep_view()),
            },
    {
        match text::split_once(cidr, '/') {
            None => Err(IpamError::MissingPrefix { cidr: cidr.to_owned() }),
            Some((addr, mask)) => {
                if !text::same(mask.as_str(), "24") {
                    return Err(IpamError::UnsupportedMask { mask, cidr: cidr.to_owned() });
                }
                match Ipv4Addr::parse(addr.as_str()) {
                    None => Err(IpamError::BadAddress { addr }),
                    Some(ip) => {
                        if ip.d != 0 {
                            return Err(IpamError::BaseNotZero { addr });
                        }
                        Ok(
                            IpAllocator {
                                prefix: (ip.a, ip.b, ip.c),
                                next: FIRST_HOST,
                                released: BTreeSet::new(),
                                allocated: BTreeSet::new(),
                            },
                        )
                    },
                }
            },
        }
    }

    /// Hands out the next free address. Reuses a released one first, else
    /// advances the cursor over anything reserved out of order. Fails when the
    /// slice is exhausted.
    pub fn allocate(&mut self) -> (r: Result<Ipv4Addr, IpamError>)
        requires
            old(self)@.wf(),
        ensures
            final(self)@.wf(),
            match r {
                Ok(ip) => {
                    &&& old(self)@.hands_out(ip.d)
                    &&& ip == old(self)@.address(ip.d)
                    &&& final(self)@ == old(self)@.after_handing_out(ip.d)
                    &&& !old(self)@.allocated.contains(ip.d)
                    &&& old(self)@.owns(ip)
                },
                Err(e) => {
                    &&& old(self)@.exhausted()
                    &&& e.deep_view() == IpamErrorView::Exhausted { prefix: old(self)@.prefix }
                    &&& final(self)@ == (PoolView { next: BROADCAST_HOST, ..old(self)@ })
                },
            },
    {
        if self.released.len() > 0 {
            let host: u8 = self.smallest_released();
            self.released.remove(&host);
            self.allocated.insert(host);
            assert(self@ =~= old(self)@.after_handing_out(host));
            return Ok(self.make_ip(host));
        }
        proof {
            assert forall|h: u8| !old(self)@.released.contains(h) by {
                if old(self)@.released.contains(h) {
                    assert(old(self)@.released.remove(h).len() == old(self)@.released.len() - 1);
                }
            }
        }
        while self.next < BROADCAST_HOST
            invariant
                old(self)@.wf(),
                self@ == (PoolView { next: self@.next, ..old(self)@ }),
                forall|h: u8| !old(self)@.released.contains(h),
                old(self)@.released.len() == 0,
                old(self)@.next <= self@.next <= BROADCAST_HOST,
                forall|h: u8|
                    old(self)@.next <= h < self@.next ==> #[trigger] old(
                        self,
                    )@.allocated.contains(h),
            decreases BROADCAST_HOST - self.next,
        {
            let host: u8 = self.next as u8;
            self.next = self.next + 1;
            if !self.allocated.contains(&host) {
                self.allocated.insert(host);
                assert(self@ =~= old(self)@.after_handing_out(host));
                return Ok(self.make_ip(host));
            }
        }
        Err(IpamError::Exhausted { prefix: self.prefix })
    }

    fn smallest_released(&self) -> (host: u8)
        requires
            self@.wf(),
            self@.released.len() > 0,
        ensures
            self@.released.contains(host),
            forall|h: u8| #[trigger] self@.released.contains(h) ==> host <= h,
    {
        proof {
            assert(exists|h: u8| self@.released.contains(h)) by {
                if forall|h: u8| !self@.released.contains(h) {
                    assert(self@.released =~= Set::<u8>::empty());
                }
            }
        }
        let mut host: u8 = 2;
        while !self.released.contains(&host)
            invariant
                self@.wf(),
                2 <= host <= 254,
                exists|h: u8| self@.released.contains(h),
                forall|h: u8| #[trigger] self@.released.contains(h) ==> host <= h,
            decreases 255 - host,
        {
            proof {
                let h = choose|h: u8| self@.released.contains(h);
                assert(is_host(h));
            }
            host = host + 1;
        }
        host
    }

    /// Marks an address as in use: the recovery path, before anything new is
    /// handed out, so that a restarted kubelet cannot hand out a live pod's
    /// address again. Doing it twice is harmless.
    pub fn reserve(&mut self, ip: Ipv4Addr) -> (r: Result<(), IpamError>)
        requires
            old(self)@.wf(),
        ensures
            final(self)@.wf(),
            match r {
                Ok(_) => {
                    &&& old(self)@.owns(ip)
                    &&& final(self)@ == (PoolView {
                        released: old(self)@.released.remove(ip.d),
                        allocated: old(self)@.allocated.insert(ip.d),
                        ..old(self)@
                    })
                },
                Err(e) => {
                    &&& !old(self)@.owns(ip)
                    &&& e.deep_view() == old(self)@.refusal(ip)
                    &&& final(self)@ == old(self)@
                },
            },
    {
        match self.host_in_range(ip) {
            Ok(host) => {
                self.released.remove(&host);
                self.allocated.insert(host);
                Ok(())
            },
            Err(e) => Err(e),
        }
    }

    /// Gives an address back for reuse. Nothing happens if it was not in use
    /// or is not of this slice.
    pub fn release(&mut self, ip: Ipv4Addr)
        requires
            old(self)@.wf(),
        ensures
            final(self)@.wf(),
            final(self)@ == (if old(self)@.owns(ip) && old(self)@.allocated.contains(ip.d) {
                PoolView {
                    released: old(self)@.released.insert(ip.d),
                    allocated: old(self)@.allocated.remove(ip.d),
                    ..old(self)@
                }
            } else {
                old(self)@
            }),
    {
        if let Ok(host) = self.host_in_range(ip) {
            if self.allocated.remove(&host) {
                self.released.insert(host);
            } else {
                assert(self@.allocated =~= old(self)@.allocated);
            }
        }
    }

    fn make_ip(&self, host: u8) -> (ip: Ipv4Addr)
        ensures
            ip == self@.address(host),
    {
        Ipv4Addr { a: self.prefix.0, b: self.prefix.1, c: self.prefix.2, d: host }
    }

    /// Checks that an address is of this slice and not reserved.
    fn host_in_range(&self, ip: Ipv4Addr) -> (r: Result<u8, IpamError>)
        ensures
            match r {
                Ok(host) => self@.owns(ip) && host == ip.d,
                Err(e) => !self@.owns(ip) && e.deep_view() == self@.refusal(ip),
            },
    {
        if ip.a != self.prefix.0 || ip.b != self.prefix.1 || ip.c != self.prefix.2 {
            return Err(IpamError::OutOfSlice { ip, prefix: self.prefix });
        }
        if ip.d == 0 || ip.d == 1 || ip.d == 255 {
            return Err(IpamError::ReservedHost { ip });
        }
        Ok(ip.d)
    }
}

impl PoolView {
    /// Why an address cannot be reserved.
    pub open spec fn refusal(self, ip: Ipv4Addr) -> IpamErrorView {
        if (ip.a, ip.b, ip.c) != self.prefix {
            IpamErrorView::OutOfSlice { ip, prefix: self.prefix }
        } else {
            IpamErrorView::ReservedHost { ip }
        }
    }
}

/// Law: an address in use is never handed out, and one that was handed out is
/// in use.
pub proof fn handed_out_is_new(pool: PoolView, host: u8)
    requires
        pool.wf(),
        pool.hands_out(host),
    ensures
        !pool.allocated.contains(host),
        is_host(host),
        pool.after_handing_out(host).allocated.contains(host),
        pool.after_handing_out(host).wf(),
        forall|other: u8| #[trigger]
            pool.allocated.contains(other) ==> other != host && pool.after_handing_out(
                host,
            ).allocated.contains(other),
{
    let after = pool.after_handing_out(host);
    if pool.released.len() == 0 {
        assert forall|h: u8| FIRST_HOST <= h < after.next implies #[trigger] after.allocated.contains(
            h,
        ) || after.released.contains(h) by {
            if h < pool.next {
                assert(pool.allocated.contains(h) || pool.released.contains(h));
            } else if h < host {
                assert(pool.allocated.contains(h));
            }
        }
        assert forall|h: u8| !pool.released.contains(h) by {
            if pool.released.contains(h) {
                assert(pool.released.remove(h).len() == pool.released.len() - 1);
            }
        }
    } else {
        assert forall|h: u8| FIRST_HOST <= h < after.next implies #[trigger] after.allocated.contains(
            h,
        ) || after.released.contains(h) by {
            assert(pool.allocated.contains(h) || pool.released.contains(h));
        }
    }
}

/// Law: two addresses handed out one after the other differ, as long as the
/// first is not given back.
pub proof fn addresses_are_never_shared(pool: PoolView, first: u8, second: u8)
    requires
        pool.wf(),
        pool.hands_out(first),
        pool.after_handing_out(first).hands_out(second),
    ensures
        first != second,
{
    handed_out_is_new(pool, first);
    handed_out_is_new(pool.after_handing_out(first), second);
}

/// Law: a slice has room for 253 addresses: as long as fewer are in use,
/// another one can be handed out.
pub proof fn room_for_253(pool: PoolView)
    requires
        pool.wf(),
    ensures
        pool.allocated.len() <= 253,
        pool.exhausted() <==> pool.allocated.len() == 253,
{
    let all = hosts(255);
    hosts_count(255);
    assert(pool.allocated.subset_of(all));
    vstd::set_lib::lemma_len_subset(pool.allocated, all);
    if pool.exhausted() {
        assert(pool.allocated =~= all);
    }
    if pool.allocated.len() == 253 {
        vstd::set_lib::lemma_subset_equality(pool.allocated, all);
    }
}

/// The hosts below a bound.
spec fn hosts(bound: int) -> Set<u8> {
    Set::new(|h: u8| 2 <= h < bound)
}

proof fn hosts_count(bound: int)
    requires
        2 <= bound <= 255,
    ensures
        hosts(bound).finite(),
        hosts(bound).len() == bound - 2,
    decreases bound,
{
    if bound == 2 {
        assert(hosts(2) =~= Set::<u8>::empty());
    } else {
        hosts_count(bound - 1);
        assert(hosts(bound) =~= hosts(bound - 1).insert((bound - 1) as u8));
    }
}

/// Law: slices that differ have no address in common.
pub proof fn slices_are_disjoint(p: PoolView, q: PoolView, ip: Ipv4Addr)
    requires
        p.prefix != q.prefix,
    ensures
        !(p.owns(ip) && q.owns(ip)),
{
}

/// Law: an address that is given back is handed out again before any other that
/// is larger, and nothing is lost by giving back and reserving again.
pub proof fn release_then_reserve_restores(pool: PoolView, host: u8)
    requires
        pool.wf(),
        pool.allocated.contains(host),
    ensures
        ({
            let given_back = PoolView {
                released: pool.released.insert(host),
                allocated: pool.allocated.remove(host),
                ..pool
            };
            let again = PoolView {
                released: given_back.released.remove(host),
                allocated: given_back.allocated.insert(host),
                ..given_back
            };
            again == pool
        }),
{
    assert(pool.released.insert(host).remove(host) =~= pool.released);
    assert(pool.allocated.remove(host).insert(host) =~= pool.allocated);
}

/// Law: an octet is read from how it is written, and from nothing else.
pub proof fn octets_are_decimals(part: Seq<char>, n: u8)
    ensures
        octet_value(part) == Some(n) <==> part == text::decimal_chars(n as nat),
{
    text::decimal_parses_back(n as u64);
    let own = text::decimal_chars(n as nat);
    if part == own {
        text::decimal_digits_have_places(n as nat, 0);
        let len = own.len();
        vstd::arithmetic::power::lemma_pow0(10);
        vstd::arithmetic::power::lemma_pow1(10);
        vstd::arithmetic::power::lemma_pow_adds(10, 1, 1);
        vstd::arithmetic::power::lemma_pow_adds(10, 2, 1);
        if len > 3 {
            vstd::arithmetic::power::lemma_pow_increases(10, 3, (len - 1) as nat);
            assert(false);
        }
        if len == 3 {
            assert(n as int / 100 > 0);
        }
        if len == 2 {
            assert(n as int / 10 > 0);
        }
        assert(own[0] != '+');
    }
    if octet_value(part) == Some(n) {
        assert(text::digits_value(part) == Some(n as nat));
        text::digits_are_the_decimal(part, n as nat);
    }
}

/// The four parts of an address, as they are written.
spec fn written_parts(ip: Ipv4Addr) -> Seq<Seq<char>> {
    seq![
        text::decimal_chars(ip.a as nat),
        text::decimal_chars(ip.b as nat),
        text::decimal_chars(ip.c as nat),
        text::decimal_chars(ip.d as nat),
    ]
}

proof fn written_parts_rejoin(ip: Ipv4Addr)
    ensures
        text::rejoined(written_parts(ip), '.') == address_chars(ip),
        text::unseparated(written_parts(ip), '.'),
{
    let parts = written_parts(ip);
    reveal_strlit(".");
    assert("."@ =~= seq!['.']);
    assert(parts.drop_last().drop_last().drop_last() =~= seq![parts[0]]);
    assert(parts.drop_last().drop_last() =~= seq![parts[0], parts[1]]);
    assert(parts.drop_last() =~= seq![parts[0], parts[1], parts[2]]);
    assert(text::rejoined(seq![parts[0]], '.') == parts[0]);
    assert(text::rejoined(parts.drop_last().drop_last(), '.') == parts[0].push('.') + parts[1]);
    assert(text::rejoined(parts.drop_last(), '.') == (parts[0].push('.') + parts[1]).push('.')
        + parts[2]);
    assert(text::rejoined(parts, '.') =~= address_chars(ip));
    assert forall|i: int, j: int|
        0 <= i < parts.len() && 0 <= j < parts[i].len() implies #[trigger] parts[i][j] != '.' by {
        let octets = seq![ip.a, ip.b, ip.c, ip.d];
        text::decimal_digits_have_places(octets[i] as nat, j);
    }
}

/// Law: an address is read from how it is written, and from nothing else.
pub proof fn addresses_read_back(s: Seq<char>, ip: Ipv4Addr)
    ensures
        parsed_address(s) == Some(ip) <==> s == address_chars(ip),
{
    written_parts_rejoin(ip);
    let own = written_parts(ip);
    let parts = text::pieces(s, '.');
    octets_are_decimals(own[0], ip.a);
    octets_are_decimals(own[1], ip.b);
    octets_are_decimals(own[2], ip.c);
    octets_are_decimals(own[3], ip.d);
    if s == address_chars(ip) {
        text::cutting_finds_the_pieces(own, '.');
    }
    if parsed_address(s) == Some(ip) {
        octets_are_decimals(parts[0], ip.a);
        octets_are_decimals(parts[1], ip.b);
        octets_are_decimals(parts[2], ip.c);
        octets_are_decimals(parts[3], ip.d);
        text::cutting_loses_nothing(s, '.');
        assert(parts =~= own);
    }
}

/// Law: a slice is read from three octets, a zero and the mask 24, written as they
/// are, and from nothing else.
pub proof fn slices_read_back(cidr: Seq<char>, prefix: (u8, u8, u8))
    ensures
        slice_of(cidr) == Ok::<(u8, u8, u8), IpamErrorView>(prefix) <==> cidr == slice_chars(
            prefix,
        ),
{
    let ip = Ipv4Addr { a: prefix.0, b: prefix.1, c: prefix.2, d: 0 };
    let addr = address_chars(ip);
    reveal_strlit(".");
    reveal_strlit(".0/24");
    reveal_strlit("24");
    assert(text::decimal_chars(0) =~= seq!['0']);
    assert(slice_chars(prefix) =~= addr.push('/') + "24"@);
    assert(!addr.contains('/')) by {
        if addr.contains('/') {
            let i = choose|i: int| 0 <= i < addr.len() && addr[i] == '/';
            addresses_hold_no_slash(ip, i);
        }
    }
    addresses_read_back(addr, ip);
    text::halving_is_at_the_first(cidr, '/', addr, "24"@);
    if slice_of(cidr) == Ok::<(u8, u8, u8), IpamErrorView>(prefix) {
        let (a, m) = text::halves(cidr, '/')->0;
        addresses_read_back(a, ip);
        text::halving_is_at_the_first(cidr, '/', a, m);
    }
}

proof fn addresses_hold_no_slash(ip: Ipv4Addr, i: int)
    requires
        0 <= i < address_chars(ip).len(),
    ensures
        address_chars(ip)[i] != '/',
{
    reveal_strlit(".");
    let a = text::decimal_chars(ip.a as nat);
    let b = text::decimal_chars(ip.b as nat);
    let c = text::decimal_chars(ip.c as nat);
    let d = text::decimal_chars(ip.d as nat);
    let (x, y, z) = (a.len() as int, a.len() + 1 + b.len(), a.len() + 2 + b.len() + c.len());
    let s = address_chars(ip);
    assert(s =~= a + "."@ + b + "."@ + c + "."@ + d);
    if i < x {
        assert(s[i] == a[i]);
        text::decimal_digits_have_places(ip.a as nat, i);
    } else if x < i < y {
        assert(s[i] == b[i - x - 1]);
        text::decimal_digits_have_places(ip.b as nat, i - x - 1);
    } else if y < i < z {
        assert(s[i] == c[i - y - 1]);
        text::decimal_digits_have_places(ip.c as nat, i - y - 1);
    } else if z < i {
        assert(s[i] == d[i - z - 1]);
        text::decimal_digits_have_places(ip.d as nat, i - z - 1);
    }
}

/// Law: the address that is handed out is the smallest of those given back, if there
/// is any, and else the smallest from 2 to 254 that is not in use. It is then in use,
/// and nothing else changes hands.
pub proof fn the_smallest_is_handed_out(pool: PoolView, host: u8, other: u8)
    requires
        pool.wf(),
        pool.hands_out(host),
    ensures
        ({
            let after = pool.after_handing_out(host);
            &&& 2 <= host <= 254
            &&& !pool.allocated.contains(host)
            &&& pool.released.len() > 0 ==> pool.released.contains(host)
            &&& pool.released.contains(other) ==> host <= other
            &&& pool.released.len() == 0 && 2 <= other < host ==> pool.allocated.contains(other)
            &&& after.allocated == pool.allocated.insert(host)
            &&& after.released == pool.released.remove(host)
            &&& after.prefix == pool.prefix
            &&& pool.address(host) == (Ipv4Addr {
                a: pool.prefix.0,
                b: pool.prefix.1,
                c: pool.prefix.2,
                d: host,
            })
        }),
{
    if pool.released.len() == 0 {
        if pool.released.contains(other) {
            assert(pool.released.remove(other).len() == pool.released.len() - 1);
        }
        assert(!pool.released.contains(host)) by {
            if pool.released.contains(host) {
                assert(pool.released.remove(host).len() == pool.released.len() - 1);
            }
        }
        assert(pool.released.remove(host) =~= pool.released);
    } else {
        assert(is_host(host));
    }
}

/// Law: an address belongs to a slice if its first three octets are the slice's and
/// its last is neither the network's, the gateway's nor the broadcast's; else it is
/// refused, for the first of these that fails.
pub proof fn slices_own_their_hosts(pool: PoolView, ip: Ipv4Addr)
    ensures
        pool.owns(ip) <==> ip.a == pool.prefix.0 && ip.b == pool.prefix.1 && ip.c == pool.prefix.2
            && ip.d != 0 && ip.d != 1 && ip.d != 255,
        !pool.owns(ip) ==> pool.refusal(ip) == if ip.a == pool.prefix.0 && ip.b == pool.prefix.1
            && ip.c == pool.prefix.2 {
            IpamErrorView::ReservedHost { ip }
        } else {
            IpamErrorView::OutOfSlice { ip, prefix: pool.prefix }
        },
{
}


/// Law: an address that is handed out is one of the slice's, was not in use, and
/// is now; the lowest of those given back goes first. No other address changes
/// hands, and none is refused while one is free. What is reserved is in use;
/// what is given back can be handed out again.
pub proof fn addresses_change_hands(
    handing: &mut IpAllocator,
    r: Result<Ipv4Addr, IpamError>,
    keeping: &mut IpAllocator,
    ip: Ipv4Addr,
    kept: Result<(), IpamError>,
    returning: &mut IpAllocator,
    back: Ipv4Addr,
    other: u8,
)
    requires
        old(handing)@.wf(),
        old(keeping)@.wf(),
        old(returning)@.wf(),
        call_ensures(IpAllocator::allocate, (handing,), r),
        call_ensures(IpAllocator::reserve, (keeping, ip), kept),
        call_ensures(IpAllocator::release, (returning, back), ()),
    ensures
        match r {
            Ok(given) => {
                let (was, now) = (old(handing)@, final(handing)@);
                &&& (given.a, given.b, given.c) == was.prefix && now.prefix == was.prefix
                &&& 2 <= given.d <= 254
                &&& !was.allocated.contains(given.d)
                &&& now.allocated.contains(given.d)
                &&& !now.released.contains(given.d)
                &&& other != given.d ==> now.allocated.contains(other) == was.allocated.contains(
                    other,
                ) && now.released.contains(other) == was.released.contains(other)
                &&& was.released.contains(other) ==> given.d <= other
            },
            Err(_) => 2 <= other <= 254 ==> old(handing)@.allocated.contains(other),
        },
        kept is Ok <==> (ip.a, ip.b, ip.c) == old(keeping)@.prefix && 2 <= ip.d <= 254,
        kept is Ok ==> final(keeping)@.allocated.contains(ip.d),
        kept is Ok ==> !final(keeping)@.released.contains(ip.d),
        kept is Err ==> final(keeping)@ == old(keeping)@,
        ({
            let (was, now) = (old(returning)@, final(returning)@);
            let own = (back.a, back.b, back.c) == was.prefix && was.allocated.contains(back.d);
            &&& own ==> !now.allocated.contains(back.d) && now.released.contains(back.d)
            &&& !own ==> now == was
        }),
{
}


/// Law: a slice is refused for the first thing that is wrong with it: that it has
/// no slash, that something other than 24 stands behind the first one, that what
/// stands before it is no address, or that the address is not the slice's first.
/// A new allocator has handed out nothing.
pub proof fn slices_are_read(cidr: &str, r: Result<IpAllocator, IpamError>)
    requires
        call_ensures(IpAllocator::from_cidr, (cidr,), r),
    ensures
        match text::halves(cidr@, '/') {
            None => match r {
                Err(IpamError::MissingPrefix { cidr: told }) => told@ == cidr@,
                _ => false,
            },
            Some((addr, mask)) => if mask != "24"@ {
                match r {
                    Err(IpamError::UnsupportedMask { mask: m, cidr: told }) => m@ == mask && told@
                        == cidr@,
                    _ => false,
                }
            } else {
                match parsed_address(addr) {
                    None => match r {
                        Err(IpamError::BadAddress { addr: told }) => told@ == addr,
                        _ => false,
                    },
                    Some(ip) => match r {
                        Err(IpamError::BaseNotZero { addr: told }) => ip.d != 0 && told@ == addr,
                        Ok(pool) => ip.d == 0 && pool@.prefix == (ip.a, ip.b, ip.c)
                            && pool@.allocated == Set::<u8>::empty() && pool@.released
                            == Set::<u8>::empty() && pool@.next == 2,
                        _ => false,
                    },
                }
            },
        },
{
}

} // verus!
