use vstd::prelude::*;

use crate::cert::{parse_certificate, x509_der_parse};
use crate::frame::{
    is_single_der_element, is_single_element, lemma_declared_size_extend,
    lemma_declared_size_truncate,
};

verus! {

/// Length in bytes of a pinned public key: an uncompressed P-256 point.
pub const KEY_LEN: usize = 65;

/// Why a presented certificate chain was turned away.
#[derive(Clone, Copy, Debug, PartialEq, Eq, Structural)]
pub enum RejectionKind {
    /// Zero certificates, or more than one, were presented.
    WrongCertificateCount,
    /// The single certificate is not one complete DER-encoded X.509 certificate.
    MalformedCertificate,
    /// The certificate decoded, but its subject public key is not pinned.
    UnknownKey,
}

/// The raw bytes of each certificate of a presented chain.
pub open spec fn chain_view(presented: Seq<Vec<u8>>) -> Seq<Seq<u8>> {
    presented.map_values(|c: Vec<u8>| c@)
}

/// The decoder's outcome as plain values.
pub open spec fn parsed_view(parsed: Option<(usize, Vec<u8>)>) -> Option<(nat, Seq<u8>)> {
    match parsed {
        None => None,
        Some((rest, key)) => Some((rest as nat, key@)),
    }
}

/// The verdict on one certificate once the decoder has run on it: any decode
/// error or unread trailing byte makes it malformed; otherwise its subject
/// public key must be one of `keys`.
pub open spec fn parsed_verdict(keys: Set<Seq<u8>>, parsed: Option<(nat, Seq<u8>)>) -> Result<
    (),
    RejectionKind,
> {
    match parsed {
        None => Err(RejectionKind::MalformedCertificate),
        Some((rest, key)) => if rest != 0 {
            Err(RejectionKind::MalformedCertificate)
        } else if keys.contains(key) {
            Ok(())
        } else {
            Err(RejectionKind::UnknownKey)
        },
    }
}

/// The verdict on a presented chain under the pinned key set `keys`.
pub open spec fn verdict(keys: Set<Seq<u8>>, chain: Seq<Seq<u8>>) -> Result<(), RejectionKind> {
    if chain.len() != 1 {
        Err(RejectionKind::WrongCertificateCount)
    } else if !is_single_element(chain[0]) {
        Err(RejectionKind::MalformedCertificate)
    } else {
        parsed_verdict(keys, x509_der_parse(chain[0]))
    }
}

/// The set of byte strings held in `keys`.
pub open spec fn key_set(keys: Seq<Vec<u8>>) -> Set<Seq<u8>> {
    keys.map_values(|k: Vec<u8>| k@).to_set()
}

/// A verifier that accepts a peer only when the single certificate it
/// presents carries one of a fixed set of raw public keys.
pub struct Whitelist {
    whitelist: Vec<Vec<u8>>,
}

impl View for Whitelist {
    type V = Set<Seq<u8>>;

    closed spec fn view(&self) -> Set<Seq<u8>> {
        key_set(self.whitelist@)
    }
}

/// Byte-for-byte equality of two byte strings.
fn bytes_equal(a: &[u8], b: &[u8]) -> (r: bool)
    ensures
        r == (a@ == b@),
{
    if a.len() != b.len() {
        return false;
    }
    let mut i: usize = 0;
    while i < a.len()
        invariant
            i <= a@.len(),
            a@.len() == b@.len(),
            a@.subrange(0, i as int) == b@.subrange(0, i as int),
        decreases a.len() - i,
    {
        if a[i] != b[i] {
            assert(a@[i as int] != b@[i as int]);
            return false;
        }
        assert(a@.subrange(0, i + 1) =~= a@.subrange(0, i as int).push(a@[i as int]));
        assert(b@.subrange(0, i + 1) =~= b@.subrange(0, i as int).push(b@[i as int]));
        i = i + 1;
    }
    assert(a@ =~= a@.subrange(0, i as int));
    assert(b@ =~= b@.subrange(0, i as int));
    true
}

/// Membership of `key` among the byte strings of `keys`.
fn holds_key(keys: &Vec<Vec<u8>>, key: &[u8]) -> (r: bool)
    ensures
        r == key_set(keys@).contains(key@),
{
    let ghost views = keys@.map_values(|k: Vec<u8>| k@);
    let mut i: usize = 0;
    while i < keys.len()
        invariant
            i <= keys@.len(),
            views == keys@.map_values(|k: Vec<u8>| k@),
            forall|j: int| 0 <= j < i ==> views[j] != key@,
        decreases keys.len() - i,
    {
        if bytes_equal(keys[i].as_slice(), key) {
            assert(views[i as int] == key@);
            return true;
        }
        i = i + 1;
    }
    assert(!views.contains(key@));
    false
}

/// A copy of a key in a vector of its own.
fn key_to_vec(a: &[u8; 65]) -> (v: Vec<u8>)
    ensures
        v@ == a@,
{
    let mut v: Vec<u8> = Vec::new();
    let mut j: usize = 0;
    while j < KEY_LEN
        invariant
            j <= KEY_LEN,
            a@.len() == KEY_LEN,
            v@ == a@.subrange(0, j as int),
        decreases KEY_LEN - j,
    {
        v.push(a[j]);
        assert(a@.subrange(0, j + 1) =~= a@.subrange(0, j as int).push(a@[j as int]));
        j = j + 1;
    }
    assert(a@.subrange(0, KEY_LEN as int) =~= a@);
    v
}

impl Whitelist {
    /// Each key is held once, and each has the fixed key length.
    #[verifier::type_invariant]
    spec fn inv(&self) -> bool {
        &&& self.whitelist@.map_values(|k: Vec<u8>| k@).no_duplicates()
        &&& forall|i: int| 0 <= i < self.whitelist@.len() ==> #[trigger] self.whitelist@[i]@.len() == KEY_LEN
    }

    /// Pins exactly the keys of `elems`; a key listed twice is held once.
    pub fn new(elems: &[[u8; 65]]) -> (w: Self)
        ensures
            w@ == elems@.map_values(|a: [u8; 65]| a@).to_set(),
    {
        let ghost given = elems@.map_values(|a: [u8; 65]| a@);
        let mut keys: Vec<Vec<u8>> = Vec::new();
        let mut i: usize = 0;
        while i < elems.len()
            invariant
                i <= elems@.len(),
                given == elems@.map_values(|a: [u8; 65]| a@),
                key_set(keys@) == given.subrange(0, i as int).to_set(),
                keys@.map_values(|k: Vec<u8>| k@).no_duplicates(),
                forall|j: int| 0 <= j < keys@.len() ==> #[trigger] keys@[j]@.len() == KEY_LEN,
            decreases elems.len() - i,
        {
            let key = key_to_vec(&elems[i]);
            let ghost before = keys@.map_values(|k: Vec<u8>| k@);
            proof {
                assert(given.subrange(0, i + 1) =~= given.subrange(0, i as int).push(key@));
                given.subrange(0, i as int).lemma_push_to_set_commute(key@);
            }
            if !holds_key(&keys, key.as_slice()) {
                keys.push(key);
                proof {
                    assert(keys@.map_values(|k: Vec<u8>| k@) =~= before.push(key@));
                    before.lemma_push_to_set_commute(key@);
                    assert(!before.contains(key@));
                    assert(before.push(key@).no_duplicates()) by {
                        assert forall|a: int, b: int|
                            0 <= a < before.len() + 1 && 0 <= b < before.len() + 1 && a != b
                            implies #[trigger] before.push(key@)[a] != #[trigger] before.push(key@)[b] by {
                            if a == before.len() {
                                assert(before[b] != key@);
                            } else if b == before.len() {
                                assert(before[a] != key@);
                            }
                        }
                    }
                }
            } else {
                proof {
                    assert(given.subrange(0, i as int).to_set().insert(key@) =~= given.subrange(0, i as int).to_set());
                }
            }
            i = i + 1;
        }
        assert(given.subrange(0, i as int) =~= given);
        Whitelist { whitelist: keys }
    }

    /// Whether `key` is pinned, compared byte for byte.
    pub fn contains(&self, key: &[u8]) -> (r: bool)
        ensures
            r == self@.contains(key@),
    {
        holds_key(&self.whitelist, key)
    }

    /// The verdict on one certificate, given what the decoder made of it.
    pub fn verdict_for_parsed(&self, parsed: &Option<(usize, Vec<u8>)>) -> (r: Result<(), RejectionKind>)
        ensures
            r == parsed_verdict(self@, parsed_view(*parsed)),
    {
        match parsed {
            None => Err(RejectionKind::MalformedCertificate),
            Some((rest, key)) => {
                if *rest != 0 {
                    Err(RejectionKind::MalformedCertificate)
                } else if self.contains(key.as_slice()) {
                    Ok(())
                } else {
                    Err(RejectionKind::UnknownKey)
                }
            },
        }
    }

    /// Decides whether a peer that presents `presented` is trusted: it must
    /// present exactly one certificate, that certificate must be one complete
    /// DER element that decodes as X.509 with no byte left over, and its
    /// subject public key must be pinned.
    ///
    /// The outer header is checked here before the decoder runs, so an outer
    /// identifier written in the high tag number form is rejected as
    /// malformed even though the decoder would accept it: that form is not
    /// DER.
    pub fn verify(&self, presented: &[Vec<u8>]) -> (r: Result<(), RejectionKind>)
        ensures
            r == verdict(self@, chain_view(presented@)),
    {
        if presented.len() != 1 {
            return Err(RejectionKind::WrongCertificateCount);
        }
        let cert = presented[0].as_slice();
        assert(chain_view(presented@)[0] == cert@);
        if !is_single_der_element(cert) {
            return Err(RejectionKind::MalformedCertificate);
        }
        let parsed = parse_certificate(cert);
        self.verdict_for_parsed(&parsed)
    }

    /// The check made when this side is a client and the peer is the server.
    /// No root store and no host name take part: the pinned key replaces them.
    pub fn verify_server_cert(&self, presented: &[Vec<u8>]) -> (r: Result<(), RejectionKind>)
        ensures
            r == verdict(self@, chain_view(presented@)),
    {
        self.verify(presented)
    }

    /// The check made when this side is a server and the peer is a client.
    pub fn verify_client_cert(&self, presented: &[Vec<u8>]) -> (r: Result<(), RejectionKind>)
        ensures
            r == verdict(self@, chain_view(presented@)),
    {
        self.verify(presented)
    }

    /// The issuer names advertised to clients: none, since no issuer is trusted.
    pub fn client_auth_root_subjects(&self) -> (r: Vec<Vec<u8>>)
        ensures
            r@.len() == 0,
    {
        Vec::new()
    }

    /// Clients are always asked for a certificate.
    pub fn offer_client_auth(&self) -> (r: bool)
        ensures
            r,
    {
        true
    }

    /// A client without a certificate is always refused.
    pub fn client_auth_mandatory(&self) -> (r: bool)
        ensures
            r,
    {
        true
    }
}

/// A lone, well-framed certificate that decodes completely and carries a
/// pinned key is accepted.
pub proof fn lemma_pinned_key_accepted(w: Whitelist, cert: Seq<u8>, key: Seq<u8>)
    requires
        w@.contains(key),
        is_single_element(cert),
        x509_der_parse(cert) == Some((0nat, key)),
    ensures
        verdict(w@, seq![cert]) == Ok::<(), RejectionKind>(()),
{
}

/// A lone, well-framed certificate that decodes completely and carries a key
/// that is not pinned is rejected as an unknown key.
pub proof fn lemma_unpinned_key_rejected(w: Whitelist, cert: Seq<u8>, key: Seq<u8>)
    requires
        !w@.contains(key),
        is_single_element(cert),
        x509_der_parse(cert) == Some((0nat, key)),
    ensures
        verdict(w@, seq![cert]) == Err::<(), RejectionKind>(RejectionKind::UnknownKey),
{
}

/// Any number of certificates other than one is rejected for its count,
/// whatever the certificates hold.
pub proof fn lemma_wrong_count_rejected(w: Whitelist, chain: Seq<Seq<u8>>)
    requires
        chain.len() != 1,
    ensures
        verdict(w@, chain) == Err::<(), RejectionKind>(RejectionKind::WrongCertificateCount),
{
}

/// Bytes appended after a complete DER element make it malformed.
pub proof fn lemma_trailing_bytes_rejected(w: Whitelist, cert: Seq<u8>, extra: Seq<u8>)
    requires
        is_single_element(cert),
        extra.len() > 0,
    ensures
        verdict(w@, seq![cert + extra]) == Err::<(), RejectionKind>(
            RejectionKind::MalformedCertificate,
        ),
{
    lemma_declared_size_extend(cert, extra);
}

/// Every proper prefix of a complete DER element is malformed.
pub proof fn lemma_truncation_rejected(w: Whitelist, cert: Seq<u8>, i: int)
    requires
        is_single_element(cert),
        0 <= i < cert.len(),
    ensures
        verdict(w@, seq![cert.subrange(0, i)]) == Err::<(), RejectionKind>(
            RejectionKind::MalformedCertificate,
        ),
{
    lemma_declared_size_truncate(cert, i);
}

/// With no key pinned, no chain is accepted.
pub proof fn lemma_empty_set_rejects_all(w: Whitelist, chain: Seq<Seq<u8>>)
    requires
        w@ == Set::<Seq<u8>>::empty(),
    ensures
        verdict(w@, chain) is Err,
{
}

/// The verdict depends on the pinned keys and the presented bytes alone, so
/// the same verifier gives the same verdict on the same chain every time.
pub proof fn lemma_verdict_deterministic(
    w1: Whitelist,
    w2: Whitelist,
    chain1: Seq<Seq<u8>>,
    chain2: Seq<Seq<u8>>,
)
    requires
        w1@ == w2@,
        chain1 == chain2,
    ensures
        verdict(w1@, chain1) == verdict(w2@, chain2),
{
}

} // verus!
