//! Which of this machine's addresses to show as the one peers can reach.
use vstd::prelude::*;

verus! {

/// An IP address: four bytes, or eight 16-bit groups.
#[derive(Debug, Clone, Copy)]
pub enum IpAddress {
    V4([u8; 4]),
    V6([u16; 8]),
}

/// An address of a network interface, and whether it is a loopback one.
#[derive(Debug, Clone, Copy)]
pub struct InterfaceAddress {
    pub is_loopback: bool,
    pub ip: IpAddress,
}

/// The IPv4 loopback address, 127.0.0.1.
pub open spec fn localhost() -> IpAddress {
    IpAddress::V4([127u8, 0u8, 0u8, 1u8])
}

/// Whether four bytes are a private IPv4 address: 10.0.0.0/8,
/// 172.16.0.0/12 or 192.168.0.0/16.
pub open spec fn is_private_v4(b: Seq<u8>) -> bool {
    ||| b[0] == 10
    ||| b[0] == 172 && 16 <= b[1] && b[1] <= 31
    ||| b[0] == 192 && b[1] == 168
}

/// A private IPv4 address of an interface that is not loopback.
pub open spec fn is_lan(a: InterfaceAddress) -> bool {
    &&& !a.is_loopback
    &&& a.ip matches IpAddress::V4(b) && is_private_v4(b@)
}

/// `i` is the first index of `s` holding a private IPv4 address of an
/// interface that is not loopback.
pub open spec fn first_lan(s: Seq<InterfaceAddress>, i: int) -> bool {
    &&& 0 <= i < s.len()
    &&& is_lan(s[i])
    &&& forall|j: int| 0 <= j < i ==> !is_lan(#[trigger] s[j])
}

/// `i` is the first index of `s` holding an address of an interface that
/// is not loopback.
pub open spec fn first_non_loopback(s: Seq<InterfaceAddress>, i: int) -> bool {
    &&& 0 <= i < s.len()
    &&& !s[i].is_loopback
    &&& forall|j: int| 0 <= j < i ==> (#[trigger] s[j]).is_loopback
}

/// The address to show: the first private IPv4 address of an interface
/// that is not loopback; failing that, the first address of any interface
/// that is not loopback; failing that, or when the interfaces cannot be
/// listed, 127.0.0.1.
pub open spec fn chosen(interfaces: Option<Seq<InterfaceAddress>>, r: IpAddress) -> bool {
    match interfaces {
        None => r == localhost(),
        Some(s) => if exists|i: int| 0 <= i < s.len() && is_lan(#[trigger] s[i]) {
            exists|i: int| #[trigger] first_lan(s, i) && r == s[i].ip
        } else if exists|i: int| 0 <= i < s.len() && !(#[trigger] s[i]).is_loopback {
            exists|i: int| #[trigger] first_non_loopback(s, i) && r == s[i].ip
        } else {
            r == localhost()
        },
    }
}

fn is_lan_address(a: &InterfaceAddress) -> (r: bool)
    ensures
        r == is_lan(*a),
{
    if a.is_loopback {
        return false;
    }
    match a.ip {
        IpAddress::V4(b) => b[0] == 10 || (b[0] == 172 && 16 <= b[1] && b[1] <= 31) || (b[0] == 192 && b[1] == 168),
        IpAddress::V6(_) => false,
    }
}

/// Picks the address to show for this instance among the addresses of its
/// network interfaces, if they could be listed.
pub fn choose_local_ip(interfaces: Option<&Vec<InterfaceAddress>>) -> (r: IpAddress)
    ensures
        chosen(
            match interfaces {
                Some(v) => Some(v@),
                None => None,
            },
            r,
        ),
{
    let v = match interfaces {
        Some(v) => v,
        None => return IpAddress::V4([127, 0, 0, 1]),
    };
    let mut i: usize = 0;
    while i < v.len()
        invariant
            interfaces matches Some(w) && w@ == v@,
            i <= v@.len(),
            forall|j: int| 0 <= j < i ==> !is_lan(#[trigger] v@[j]),
        decreases v@.len() - i,
    {
        if is_lan_address(&v[i]) {
            assert(first_lan(v@, i as int));
            return v[i].ip;
        }
        i = i + 1;
    }
    let mut k: usize = 0;
    while k < v.len()
        invariant
            interfaces matches Some(w) && w@ == v@,
            k <= v@.len(),
            forall|j: int| 0 <= j < v@.len() ==> !is_lan(#[trigger] v@[j]),
            forall|j: int| 0 <= j < k ==> (#[trigger] v@[j]).is_loopback,
        decreases v@.len() - k,
    {
        if !v[k].is_loopback {
            assert(first_non_loopback(v@, k as int));
            return v[k].ip;
        }
        k = k + 1;
    }
    IpAddress::V4([127, 0, 0, 1])
}


/// A private IPv4 address of an interface that is not loopback (in
/// 10.0.0.0/8, 172.16.0.0/12 or 192.168.0.0/16) is always preferred: when
/// the interfaces hold one, the address shown is such an address, of an
/// interface that is not loopback, and none listed before it is one.
pub proof fn law_private_addresses_are_preferred(s: Seq<InterfaceAddress>, r: IpAddress, i: int)
    requires
        chosen(Some(s), r),
        0 <= i < s.len(),
        !s[i].is_loopback,
        s[i].ip is V4,
        ({
            let b = s[i].ip->V4_0;
            ||| (b[0] == 192 && b[1] == 168)
            ||| (b[0] == 172 && 16 <= b[1] <= 31)
            ||| 10 == b[0]
        }),
    ensures
        exists|j: int|
            0 <= j <= i && !(#[trigger] s[j]).is_loopback && s[j].ip == r && r is V4 && ({
                let c = r->V4_0;
                ||| (c[0] == 192 && c[1] == 168)
                ||| (c[0] == 172 && 16 <= c[1] <= 31)
                ||| 10 == c[0]
            }),
{
    assert(is_lan(s[i]));
    let j = choose|j: int| #[trigger] first_lan(s, j) && r == s[j].ip;
    assert(is_lan(s[j]));
    if j > i {
        assert(!is_lan(s[i]));
    }
}

} // verus!
