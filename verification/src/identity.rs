//! Certificate fingerprints and the layout of the identity data directory.
use sha2::{Digest, Sha256};
use vstd::prelude::*;

use crate::error::Error;
use crate::path::{
    extension_text, file_name_text, last_index_of, path_join, path_join_text, stem_text, trim_path_end, RelPath,
};
use crate::profiles::{is_uuid_char, parse_uuid_text, uuid_of_text, uuid_string, uuid_text};
use crate::text::{chars_of, hex_digit, hex_digit_upper, push_str, string_from_chars};
use crate::wire::is_word;

verus! {

/// The SHA-256 digest of `data`, as the `sha2` crate computes it.
pub uninterp spec fn sha256_digest(data: Seq<u8>) -> Seq<u8>;

/// Calls `Sha256::digest` from the `sha2` crate and copies the 32-byte
/// digest into an array. The contract names the digest.
#[verifier::external_body]
fn sha256(data: &[u8]) -> (r: [u8; 32])
    ensures
        r@ == sha256_digest(data@),
{
    let digest = Sha256::digest(data);
    let mut out = [0u8; 32];
    out.copy_from_slice(&digest);
    out
}

/// SHA-256 fingerprint of the DER-encoded certificate.
#[derive(Debug, Clone, PartialEq, Eq, Hash)]
pub struct Fingerprint {
    bytes: [u8; 32],
}

impl View for Fingerprint {
    type V = Seq<u8>;

    closed spec fn view(&self) -> Seq<u8> {
        self.bytes@
    }
}

/// Two uppercase hex digits for a byte, high nibble first.
pub open spec fn hex_pair_upper(b: u8) -> Seq<char> {
    seq![hex_digit_upper(b / 16), hex_digit_upper(b % 16)]
}

/// The bytes as uppercase hex pairs joined by `:`.
pub open spec fn colon_hex(bytes: Seq<u8>) -> Seq<char>
    decreases bytes.len(),
{
    if bytes.len() == 0 {
        Seq::empty()
    } else if bytes.len() == 1 {
        hex_pair_upper(bytes[0])
    } else {
        colon_hex(bytes.drop_last()) + seq![':'] + hex_pair_upper(bytes.last())
    }
}

/// Each byte takes three characters of its colon-joined hex text but the
/// last, which has no colon after it; byte `i` is written at `3 * i`.
pub proof fn lemma_colon_hex_layout(bytes: Seq<u8>)
    requires
        bytes.len() >= 1,
    ensures
        colon_hex(bytes).len() == 3 * bytes.len() - 1,
        forall|i: int|
            0 <= i < bytes.len() ==> colon_hex(bytes)[3 * i] == hex_digit_upper(#[trigger] bytes[i] / 16)
                && colon_hex(bytes)[3 * i + 1] == hex_digit_upper(bytes[i] % 16),
    decreases bytes.len(),
{
    if bytes.len() > 1 {
        let prev = bytes.drop_last();
        lemma_colon_hex_layout(prev);
        let t = colon_hex(bytes);
        assert(t == colon_hex(prev) + seq![':'] + hex_pair_upper(bytes.last()));
        assert forall|i: int| 0 <= i < bytes.len() implies t[3 * i] == hex_digit_upper(#[trigger] bytes[i] / 16)
            && t[3 * i + 1] == hex_digit_upper(bytes[i] % 16) by {
            if i < bytes.len() - 1 {
                assert(prev[i] == bytes[i]);
            }
        }
    }
}

proof fn lemma_hex_digit_upper_injective(x: u8, y: u8)
    requires
        x < 16,
        y < 16,
        hex_digit_upper(x) == hex_digit_upper(y),
    ensures
        x == y,
{
    assert((hex_digit_upper(x) as u32) == if x < 10 { x + 0x30 } else { x - 10 + 0x41 });
    assert((hex_digit_upper(y) as u32) == if y < 10 { y + 0x30 } else { y - 10 + 0x41 });
}

/// Two byte strings of the same length have the same colon-joined hex text
/// exactly when they are equal.
pub proof fn lemma_colon_hex_injective(a: Seq<u8>, b: Seq<u8>)
    requires
        a.len() == b.len(),
    ensures
        colon_hex(a) == colon_hex(b) <==> a == b,
{
    if a.len() > 0 && colon_hex(a) == colon_hex(b) {
        lemma_colon_hex_layout(a);
        lemma_colon_hex_layout(b);
        assert forall|i: int| 0 <= i < a.len() implies a[i] == b[i] by {
            assert(colon_hex(a)[3 * i] == hex_digit_upper(a[i] / 16));
            assert(colon_hex(b)[3 * i] == hex_digit_upper(b[i] / 16));
            lemma_hex_digit_upper_injective(a[i] / 16, b[i] / 16);
            lemma_hex_digit_upper_injective(a[i] % 16, b[i] % 16);
            let (x, y) = (a[i], b[i]);
            assert(x == 16 * (x / 16) + x % 16);
            assert(y == 16 * (y / 16) + y % 16);
        }
        assert(a =~= b);
    }
    if a.len() == 0 {
        assert(a =~= b);
    }
}

/// The first `n` bytes as uppercase hex pairs joined by `:`.
fn colon_hex_string(bytes: &[u8; 32], n: usize) -> (r: String)
    requires
        n <= 32,
    ensures
        r@ == colon_hex(bytes@.take(n as int)),
{
    let mut v: Vec<char> = Vec::new();
    let mut i: usize = 0;
    assert(bytes@.take(0) =~= Seq::<u8>::empty());
    while i < n
        invariant
            i <= n <= 32,
            bytes@.len() == 32,
            v@ == colon_hex(bytes@.take(i as int)),
        decreases n - i,
    {
        let b = bytes[i];
        assert(bytes@.take(i + 1).drop_last() =~= bytes@.take(i as int));
        assert(bytes@.take(i + 1).last() == b);
        if i > 0 {
            v.push(':');
        }
        v.push(hex_digit(b / 16, true));
        v.push(hex_digit(b % 16, true));
        proof {
            if i == 0 {
                assert(v@ =~= hex_pair_upper(b));
            } else {
                assert(v@ =~= colon_hex(bytes@.take(i as int)) + seq![':'] + hex_pair_upper(b));
            }
        }
        i = i + 1;
    }
    string_from_chars(&v)
}

impl Fingerprint {
    /// The fingerprint of a DER-encoded certificate: its SHA-256 digest.
    pub fn from_cert_der(cert_der: &[u8]) -> (r: Self)
        ensures
            r@ == sha256_digest(cert_der@),
    {
        Fingerprint { bytes: sha256(cert_der) }
    }

    /// Short form for display and mDNS TXT: first 8 bytes as hex with colons.
    pub fn short(&self) -> (r: String)
        ensures
            r@ == colon_hex(self@.take(8)),
    {
        colon_hex_string(&self.bytes, 8)
    }

    /// Full fingerprint as hex with colons: 32 pairs, 95 characters.
    pub fn full(&self) -> (r: String)
        ensures
            r@ == colon_hex(self@),
            r@.len() == 95,
    {
        proof {
            lemma_colon_hex_layout(self.bytes@);
        }
        let r = colon_hex_string(&self.bytes, 32);
        assert(self.bytes@.take(32) =~= self.bytes@);
        r
    }

    /// Two fingerprints have the same full text exactly when they hold the
    /// same bytes.
    pub proof fn law_full_text_is_unique(&self, other: &Fingerprint)
        ensures
            colon_hex(self@) == colon_hex(other@) <==> self@ == other@,
            colon_hex(self@).len() == 95,
    {
        lemma_colon_hex_injective(self.bytes@, other.bytes@);
        lemma_colon_hex_layout(self.bytes@);
    }

    /// The 32 bytes of the fingerprint.
    pub fn bytes(&self) -> (r: &[u8; 32])
        ensures
            r@ == self@,
    {
        &self.bytes
    }
}

/// What the `pem` crate's `parse` makes of a text: the binary contents of
/// its first PEM block, or the text of the error it reports.
pub uninterp spec fn pem_parse(text: Seq<char>) -> Result<Seq<u8>, Seq<char>>;

/// Calls `pem::parse` and copies the block's contents, or displays the
/// error; the contract names the outcome.
#[verifier::external_body]
pub(crate) fn pem_contents(text: &str) -> (r: Result<Vec<u8>, String>)
    ensures
        match (r, pem_parse(text@)) {
            (Ok(v), Ok(c)) => v@ == c,
            (Err(m), Err(e)) => m@ == e,
            _ => false,
        },
{
    match pem::parse(text) {
        Ok(p) => Ok(p.contents().to_vec()),
        Err(e) => Err(e.to_string()),
    }
}

/// The text `pem::encode` gives for a block with tag `tag` holding
/// `contents`.
pub uninterp spec fn pem_text(tag: Seq<char>, contents: Seq<u8>) -> Seq<char>;

/// Calls `pem::encode` on a block made with `pem::Pem::new`; the contract
/// names the text.
#[verifier::external_body]
fn pem_encode(tag: &str, contents: &[u8]) -> (r: String)
    ensures
        r@ == pem_text(tag@, contents@),
{
    pem::encode(&pem::Pem::new(tag, contents.to_vec()))
}

/// The number that bytes stand for, most significant first.
pub open spec fn be_number(b: Seq<u8>) -> nat
    decreases b.len(),
{
    if b.len() == 0 {
        0
    } else {
        be_number(b.drop_last()) * 256 + (b.last() as nat)
    }
}

/// 256 to the power `n`.
pub open spec fn pow256(n: nat) -> nat
    decreases n,
{
    if n == 0 {
        1
    } else {
        256 * pow256((n - 1) as nat)
    }
}

/// The UUID whose sixteen bytes are the first sixteen of a fingerprint,
/// as a number.
fn id_from_fingerprint(fp: &[u8; 32]) -> (r: u128)
    ensures
        r == be_number(fp@.take(16)),
{
    let mut v: u128 = 0;
    let mut i: usize = 0;
    assert(fp@.take(0) =~= Seq::<u8>::empty());
    while i < 16
        invariant
            i <= 16,
            fp@.len() == 32,
            v == be_number(fp@.take(i as int)),
            v < pow256(i as nat),
        decreases 16 - i,
    {
        let b = fp[i];
        assert(fp@.take(i + 1).drop_last() =~= fp@.take(i as int));
        assert(fp@.take(i + 1).last() == b);
        assert(pow256((i + 1) as nat) == 256 * pow256(i as nat));
        assert(pow256(16) == 0x1_0000_0000_0000_0000_0000_0000_0000_0000) by {
            reveal_with_fuel(pow256, 17);
        }
        proof {
            lemma_pow256_grows(i as nat, 15);
        }
        assert(v * 256 + b < 256 * pow256(i as nat)) by (nonlinear_arith)
            requires
                v < pow256(i as nat),
                b < 256,
        ;
        v = v * 256 + b as u128;
        i = i + 1;
    }
    v
}

proof fn lemma_pow256_grows(a: nat, b: nat)
    requires
        a <= b,
    ensures
        pow256(a) <= pow256(b),
    decreases b,
{
    if a < b {
        lemma_pow256_grows(a, (b - 1) as nat);
    }
}

/// The id of the instance a certificate belongs to: the UUID made of the
/// first sixteen bytes of the certificate's fingerprint.
pub open spec fn certificate_id(cert_der: Seq<u8>) -> u128 {
    be_number(sha256_digest(cert_der).take(16)) as u128
}

/// The id of the instance whose DER-encoded certificate is `cert_der`, as
/// its peers see it.
pub fn id_of_certificate(cert_der: &[u8]) -> (r: u128)
    ensures
        r == certificate_id(cert_der@),
{
    let fp = Fingerprint::from_cert_der(cert_der);
    id_from_fingerprint(fp.bytes())
}

/// The name of the file holding this instance's private key.
pub const KEY_FILENAME: &'static str = "identity.key";

/// The name of the file holding this instance's certificate.
pub const CERT_FILENAME: &'static str = "identity.cert";

/// This instance's identity: its id, its certificate in both encodings, its
/// private key, and the certificate's fingerprint.
#[derive(Debug)]
pub struct Identity {
    pub id: u128,
    pub cert_der: Vec<u8>,
    pub cert_pem: String,
    pub key_pkcs8: Vec<u8>,
    pub fingerprint: Fingerprint,
}

impl Identity {
    /// A freshly made identity with id `id`, certificate `cert_der` (also
    /// PEM-encoded as `cert_pem`) and private key `key_pkcs8`.
    pub fn from_generated(id: u128, cert_der: Vec<u8>, cert_pem: String, key_pkcs8: Vec<u8>) -> (r: Self)
        ensures
            r.id == id,
            r.cert_der@ == cert_der@,
            r.cert_pem@ == cert_pem@,
            r.key_pkcs8@ == key_pkcs8@,
            r.fingerprint@ == sha256_digest(cert_der@),
    {
        let fingerprint = Fingerprint::from_cert_der(cert_der.as_slice());
        Identity { id, cert_der, cert_pem, key_pkcs8, fingerprint }
    }

    /// The identity stored as the PEM texts of its key and certificate. Its
    /// id is read off the fingerprint: the UUID made of its first sixteen
    /// bytes.
    pub fn from_pem(key_pem: &str, cert_pem: &str) -> (r: Result<Self, Error>)
        ensures
            match pem_parse(key_pem@) {
                Err(e) => r matches Err(Error::Identity(m)) && m@ == "parse key PEM: "@ + e,
                Ok(key) => match pem_parse(cert_pem@) {
                    Err(e) => r matches Err(Error::Identity(m)) && m@ == "parse cert PEM: "@ + e,
                    Ok(der) => r matches Ok(id) && {
                        &&& id.cert_der@ == der
                        &&& id.cert_pem@ == cert_pem@
                        &&& id.key_pkcs8@ == key
                        &&& id.fingerprint@ == sha256_digest(der)
                        &&& id.id == certificate_id(der)
                    },
                },
            },
    {
        let key = match pem_contents(key_pem) {
            Ok(k) => k,
            Err(e) => {
                let mut m = chars_of("parse key PEM: ");
                push_str(&mut m, e.as_str());
                return Err(Error::Identity(string_from_chars(&m)));
            },
        };
        let der = match pem_contents(cert_pem) {
            Ok(d) => d,
            Err(e) => {
                let mut m = chars_of("parse cert PEM: ");
                push_str(&mut m, e.as_str());
                return Err(Error::Identity(string_from_chars(&m)));
            },
        };
        let fingerprint = Fingerprint::from_cert_der(der.as_slice());
        let id = id_from_fingerprint(fingerprint.bytes());
        Ok(Identity { id, cert_der: der, cert_pem: cert_pem.to_owned(), key_pkcs8: key, fingerprint })
    }

    /// The private key as stored: a PEM block tagged `PRIVATE KEY`.
    pub fn key_pem(&self) -> (r: String)
        ensures
            r@ == pem_text("PRIVATE KEY"@, self.key_pkcs8@),
    {
        pem_encode("PRIVATE KEY", self.key_pkcs8.as_slice())
    }

    /// The certificate chain to present: this instance's certificate alone.
    pub fn rustls_cert_chain(&self) -> (r: Vec<Vec<u8>>)
        ensures
            r@.len() == 1,
            r@[0]@ == self.cert_der@,
    {
        let mut r: Vec<Vec<u8>> = Vec::new();
        r.push(vstd::slice::slice_to_vec(self.cert_der.as_slice()));
        r
    }

    /// The private key, PKCS#8-encoded.
    pub fn rustls_private_key(&self) -> (r: Vec<u8>)
        ensures
            r@ == self.key_pkcs8@,
    {
        vstd::slice::slice_to_vec(self.key_pkcs8.as_slice())
    }
}

/// Whose certificate a file in the pinned-peers directory holds: files
/// with the extension `cert` whose stem is a peer's id; other files hold
/// none.
pub open spec fn pinned_owner_text(file_name: Seq<char>) -> Option<u128> {
    if extension_text(file_name) == Some("cert"@) {
        match stem_text(file_name) {
            Some(s) => uuid_of_text(s),
            None => uuid_of_text(Seq::empty()),
        }
    } else {
        None
    }
}

proof fn lemma_last_index_absent(s: Seq<char>, c: char)
    requires
        forall|i: int| 0 <= i < s.len() ==> s[i] != c,
    ensures
        last_index_of(s, c) == -1,
    decreases s.len(),
{
    if s.len() > 0 {
        lemma_last_index_absent(s.drop_last(), c);
    }
}

/// The file, under the pinned-peers directory, that holds the certificate
/// of peer `peer_id`: its id followed by `.cert`. The file is found again
/// as that peer's.
pub fn pinned_cert_file_name(peer_id: u128) -> (r: String)
    ensures
        r@ == uuid_text(peer_id) + ".cert"@,
        pinned_owner_text(r@) == Some(peer_id),
{
    let u = uuid_string(peer_id);
    let mut v = chars_of(u.as_str());
    push_str(&mut v, ".cert");
    proof {
        reveal_strlit(".cert");
        reveal_strlit("cert");
        let name = v@;
        let w = u@;
        assert(name.len() == 41);
        assert(name.last() == 't');
        assert(trim_path_end(name) == name);
        assert forall|i: int| 0 <= i < name.len() implies name[i] != '/' by {
            if i < 36 {
                assert(name[i] == w[i]);
                assert(is_uuid_char(w[i]));
            }
        }
        lemma_last_index_absent(name, '/');
        assert(name.subrange(0, 41) =~= name);
        assert(file_name_text(name) == Some(name));
        let n37 = name.take(37);
        assert forall|i: int| 0 <= i < 36 implies name.take(36)[i] != '.' by {
            assert(name[i] == w[i]);
            assert(is_uuid_char(w[i]));
        }
        lemma_last_index_absent(name.take(36), '.');
        assert(name.drop_last() =~= name.take(40));
        assert(name.take(40).drop_last() =~= name.take(39));
        assert(name.take(39).drop_last() =~= name.take(38));
        assert(name.take(38).drop_last() =~= n37);
        assert(n37.last() == '.');
        assert(last_index_of(n37, '.') == 36);
        assert(last_index_of(name.take(38), '.') == 36);
        assert(last_index_of(name.take(39), '.') == 36);
        assert(last_index_of(name.take(40), '.') == 36);
        assert(last_index_of(name, '.') == 36);
        assert(name.take(36) =~= w);
        assert(name.skip(37) =~= "cert"@);
    }
    string_from_chars(&v)
}

/// Whose certificate a file in the pinned-peers directory holds: files
/// with the extension `cert` whose stem is a peer's id; other files hold
/// none.
pub fn pinned_cert_owner(file_name: &str) -> (r: Option<u128>)
    ensures
        r == pinned_owner_text(file_name@),
{
    let p = RelPath::new(file_name);
    match p.extension() {
        Some(e) => {
            if !is_word(e, "cert") {
                return None;
            }
        },
        None => return None,
    }
    let stem = match p.stem() {
        Some(s) => s,
        None => "",
    };
    match parse_uuid_text(stem) {
        Ok(u) => Some(u),
        Err(_) => None,
    }
}

/// The DER-encoded certificate that a pinned certificate file holds, when
/// its text reads as PEM; files that do not read are passed over.
pub fn pinned_cert_der(text: &str) -> (r: Option<Vec<u8>>)
    ensures
        match pem_parse(text@) {
            Ok(der) => r matches Some(v) && v@ == der,
            Err(_) => r is None,
        },
{
    match pem_contents(text) {
        Ok(d) => Some(d),
        Err(_) => None,
    }
}

/// `data_dir` joined with `peers`: where pinned peer certificates live.
pub fn peers_dir(data_dir: &str) -> (r: String)
    ensures
        r@ == path_join_text(data_dir@, "peers"@),
{
    let d = chars_of(data_dir);
    let p = chars_of("peers");
    string_from_chars(&path_join(&d, &p))
}

} // verus!
