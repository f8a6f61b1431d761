//! Which peer certificates a connection accepts: any while pairing, and
//! otherwise only those pinned when the peer was paired, recognised by
//! their fingerprints.
use vstd::prelude::*;

use crate::identity::{sha256_digest, Fingerprint};

verus! {

/// How a connection checks the certificate its peer presents.
#[derive(Debug, Clone)]
pub enum CertCheck {
    /// Pairing: any certificate is accepted, to be confirmed by the user.
    AcceptAny,
    /// Normal operation: only certificates with one of these fingerprints.
    Pinned { fingerprints: Vec<Fingerprint> },
}

/// The fingerprints of a list of DER-encoded certificates.
pub open spec fn digests(certs: Seq<Vec<u8>>) -> Seq<Seq<u8>> {
    certs.map_values(|c: Vec<u8>| sha256_digest(c@))
}

/// The fingerprints a check holds, by view.
pub open spec fn pinned_view(fps: Seq<Fingerprint>) -> Seq<Seq<u8>> {
    fps.map_values(|f: Fingerprint| f@)
}

/// Whether `check` accepts the DER-encoded certificate `der`.
pub open spec fn accepts(check: CertCheck, der: Seq<u8>) -> bool {
    match check {
        CertCheck::AcceptAny => true,
        CertCheck::Pinned { fingerprints } => pinned_view(fingerprints@).contains(sha256_digest(der)),
    }
}

fn same_fingerprint(a: &Fingerprint, b: &Fingerprint) -> (r: bool)
    ensures
        r == (a@ == b@),
{
    let x = a.bytes();
    let y = b.bytes();
    let mut i: usize = 0;
    while i < 32
        invariant
            i <= 32,
            x@.len() == 32,
            y@.len() == 32,
            x@ == a@,
            y@ == b@,
            forall|j: int| 0 <= j < i ==> x@[j] == y@[j],
        decreases 32 - i,
    {
        if x[i] != y[i] {
            return false;
        }
        i = i + 1;
    }
    assert(x@ =~= y@);
    true
}

impl CertCheck {
    /// How a connection checks certificates: any certificate in pairing mode, else
    /// only the pinned certificates, given DER-encoded.
    pub fn new(pinned_certs: &Vec<Vec<u8>>, pairing_mode: bool) -> (r: Self)
        ensures
            pairing_mode ==> r is AcceptAny,
            !pairing_mode ==> (r matches CertCheck::Pinned { fingerprints } && pinned_view(fingerprints@)
                == digests(pinned_certs@)),
    {
        if pairing_mode {
            return CertCheck::AcceptAny;
        }
        let mut fingerprints: Vec<Fingerprint> = Vec::new();
        let mut i: usize = 0;
        while i < pinned_certs.len()
            invariant
                i <= pinned_certs@.len(),
                pinned_view(fingerprints@) == digests(pinned_certs@.take(i as int)),
            decreases pinned_certs@.len() - i,
        {
            let fp = Fingerprint::from_cert_der(pinned_certs[i].as_slice());
            proof {
                assert(pinned_view(fingerprints@.push(fp)) =~= pinned_view(fingerprints@).push(fp@));
                assert(digests(pinned_certs@.take(i + 1)) =~= digests(pinned_certs@.take(i as int)).push(
                    sha256_digest(pinned_certs@[i as int]@),
                ));
            }
            fingerprints.push(fp);
            i = i + 1;
        }
        assert(pinned_certs@.take(i as int) =~= pinned_certs@);
        CertCheck::Pinned { fingerprints }
    }

    /// Whether the DER-encoded certificate `der` is accepted.
    pub fn accepts(&self, der: &[u8]) -> (r: bool)
        ensures
            r == accepts(*self, der@),
    {
        match self {
            CertCheck::AcceptAny => true,
            CertCheck::Pinned { fingerprints } => {
                let fp = Fingerprint::from_cert_der(der);
                let mut i: usize = 0;
                while i < fingerprints.len()
                    invariant
                        i <= fingerprints@.len(),
                        fp@ == sha256_digest(der@),
                        accepts(*self, der@) == pinned_view(fingerprints@).contains(fp@),
                        forall|j: int| 0 <= j < i ==> pinned_view(fingerprints@)[j] != fp@,
                    decreases fingerprints@.len() - i,
                {
                    if same_fingerprint(&fingerprints[i], &fp) {
                        assert(pinned_view(fingerprints@)[i as int] == fp@);
                        assert(pinned_view(fingerprints@).contains(fp@));
                        return true;
                    }
                    i = i + 1;
                }
                false
            },
        }
    }

    /// Checks the certificate a client presents.
    pub fn verify_client_cert(&self, der: &[u8]) -> (r: Result<(), String>)
        ensures
            r is Ok <==> accepts(*self, der@),
            r matches Err(m) ==> m@ == "client certificate not in pinned set"@,
    {
        if self.accepts(der) {
            Ok(())
        } else {
            Err("client certificate not in pinned set".to_owned())
        }
    }

    /// Checks the certificate a server presents.
    pub fn verify_server_cert(&self, der: &[u8]) -> (r: Result<(), String>)
        ensures
            r is Ok <==> accepts(*self, der@),
            r matches Err(m) ==> m@ == "server certificate not in pinned set"@,
    {
        if self.accepts(der) {
            Ok(())
        } else {
            Err("server certificate not in pinned set".to_owned())
        }
    }

    /// Whether a client must present a certificate: only outside pairing.
    pub fn client_auth_mandatory(&self) -> (r: bool)
        ensures
            r == (*self is Pinned),
    {
        match self {
            CertCheck::AcceptAny => false,
            CertCheck::Pinned { .. } => true,
        }
    }
}

/// Outside pairing, a certificate is accepted exactly when it is one of the
/// pinned certificates or shares its fingerprint with one of them.
pub proof fn law_only_pinned_certificates_pass(pinned: Seq<Vec<u8>>, check: CertCheck, der: Seq<u8>)
    requires
        check matches CertCheck::Pinned { fingerprints } && pinned_view(fingerprints@) == digests(pinned),
    ensures
        accepts(check, der) <==> exists|i: int| 0 <= i < pinned.len() && sha256_digest(#[trigger] pinned[i]@) == sha256_digest(der),
{
    let fps = digests(pinned);
    if accepts(check, der) {
        let i = choose|i: int| 0 <= i < fps.len() && fps[i] == sha256_digest(der);
        assert(sha256_digest(pinned[i]@) == sha256_digest(der));
    }
    if exists|i: int| 0 <= i < pinned.len() && sha256_digest(#[trigger] pinned[i]@) == sha256_digest(der) {
        let i = choose|i: int| 0 <= i < pinned.len() && sha256_digest(#[trigger] pinned[i]@) == sha256_digest(der);
        assert(fps[i] == sha256_digest(der));
    }
}

} // verus!
