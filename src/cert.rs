use vstd::prelude::*;

verus! {

/// What the X.509 DER decoder makes of `der`: `None` when it reports an error,
/// otherwise the number of input bytes it left unread and the subject public
/// key bytes of the certificate it decoded.
pub uninterp spec fn x509_der_parse(der: Seq<u8>) -> Option<(nat, Seq<u8>)>;

/// Relies on `x509_parser::parse_x509_der`: on success it returns the unread
/// rest of the input and the decoded certificate, whose
/// `tbs_certificate.subject_pki.subject_public_key` holds the key bytes.
/// The decoder reads its input alone, so its outcome is named.
#[verifier::external_body]
pub(crate) fn parse_certificate(der: &[u8]) -> (r: Option<(usize, Vec<u8>)>)
    ensures
        match r {
            None => x509_der_parse(der@) is None,
            Some((rest, key)) => x509_der_parse(der@) == Some((rest as nat, key@)),
        },
{
    match x509_parser::parse_x509_der(der) {
        Ok((rest, cert)) => Some((rest.len(), cert.tbs_certificate.subject_pki.subject_public_key.as_ref().to_vec())),
        Err(_) => None,
    }
}

} // verus!
