use filesync::pinning::CertCheck;

#[test]
fn pairing_accepts_any_certificate() {
    let check = CertCheck::new(&vec![], true);
    assert!(check.accepts(b"whatever"));
    assert!(check.verify_client_cert(b"x").is_ok());
    assert!(!check.client_auth_mandatory());
}

#[test]
fn otherwise_only_pinned_certificates_pass() {
    let check = CertCheck::new(&vec![b"peer one".to_vec(), b"peer two".to_vec()], false);
    assert!(check.accepts(b"peer two"));
    assert!(check.verify_server_cert(b"peer one").is_ok());
    assert!(!check.accepts(b"stranger"));
    assert_eq!(check.verify_client_cert(b"stranger").unwrap_err(), "client certificate not in pinned set");
    assert_eq!(check.verify_server_cert(b"stranger").unwrap_err(), "server certificate not in pinned set");
    assert!(check.client_auth_mandatory());
    let none = CertCheck::new(&vec![], false);
    assert!(!none.accepts(b"peer one"));
}
