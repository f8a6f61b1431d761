use filesync::local_address::{choose_local_ip, InterfaceAddress, IpAddress};

fn v4(is_loopback: bool, b: [u8; 4]) -> InterfaceAddress {
    InterfaceAddress { is_loopback, ip: IpAddress::V4(b) }
}

fn bytes(ip: IpAddress) -> Vec<u16> {
    match ip {
        IpAddress::V4(b) => b.iter().map(|x| *x as u16).collect(),
        IpAddress::V6(g) => g.to_vec(),
    }
}

#[test]
fn a_private_lan_address_is_preferred() {
    let ifaces = vec![
        v4(true, [127, 0, 0, 1]),
        v4(false, [8, 8, 8, 8]),
        v4(false, [172, 20, 1, 2]),
        v4(false, [192, 168, 1, 5]),
    ];
    assert_eq!(bytes(choose_local_ip(Some(&ifaces))), vec![172, 20, 1, 2]);
}

#[test]
fn otherwise_the_first_address_that_is_not_loopback() {
    let ifaces = vec![
        v4(true, [127, 0, 0, 1]),
        InterfaceAddress { is_loopback: false, ip: IpAddress::V6([0xfe80, 0, 0, 0, 0, 0, 0, 1]) },
        v4(false, [172, 32, 0, 1]),
    ];
    assert_eq!(bytes(choose_local_ip(Some(&ifaces))), vec![0xfe80, 0, 0, 0, 0, 0, 0, 1]);
}

#[test]
fn otherwise_localhost() {
    assert_eq!(bytes(choose_local_ip(None)), vec![127, 0, 0, 1]);
    let ifaces = vec![v4(true, [127, 0, 0, 1])];
    assert_eq!(bytes(choose_local_ip(Some(&ifaces))), vec![127, 0, 0, 1]);
    assert_eq!(bytes(choose_local_ip(Some(&Vec::new()))), vec![127, 0, 0, 1]);
}
