use pinned_verifier::frame::is_single_der_element;
use pinned_verifier::{get_pk65, raw_key65, RejectionKind, Whitelist};

fn self_signed() -> (Vec<u8>, [u8; 65]) {
    let key_pair = rcgen::KeyPair::generate(&rcgen::PKCS_ECDSA_P256_SHA256).unwrap();
    let pk = get_pk65(&key_pair).expect("a P-256 key is 65 bytes");
    let mut params = rcgen::CertificateParams::default();
    params.key_pair = Some(key_pair);
    let cert = rcgen::Certificate::from_params(params).unwrap();
    (cert.serialize_der().unwrap(), pk)
}

#[test]
fn pinned_key_is_accepted() {
    let (der, pk) = self_signed();
    let w = Whitelist::new(&[pk]);
    assert_eq!(w.verify(&[der.clone()]), Ok(()));
    assert_eq!(w.verify_server_cert(&[der.clone()]), Ok(()));
    assert_eq!(w.verify_client_cert(&[der]), Ok(()));
}

#[test]
fn pinned_among_several_is_accepted() {
    let (der, pk) = self_signed();
    let (_, other) = self_signed();
    let w = Whitelist::new(&[other, pk, other]);
    assert_eq!(w.verify(&[der]), Ok(()));
}

#[test]
fn unpinned_key_is_unknown() {
    let (der, _) = self_signed();
    let (_, other) = self_signed();
    let w = Whitelist::new(&[other]);
    assert_eq!(w.verify(&[der]), Err(RejectionKind::UnknownKey));
}

#[test]
fn zero_certificates_wrong_count() {
    let (_, pk) = self_signed();
    let w = Whitelist::new(&[pk]);
    assert_eq!(w.verify(&[]), Err(RejectionKind::WrongCertificateCount));
}

#[test]
fn two_certificates_wrong_count() {
    let (der, pk) = self_signed();
    let w = Whitelist::new(&[pk]);
    assert_eq!(
        w.verify(&[der.clone(), der.clone()]),
        Err(RejectionKind::WrongCertificateCount)
    );
    assert_eq!(
        w.verify(&[der.clone(), vec![0u8; 3], der]),
        Err(RejectionKind::WrongCertificateCount)
    );
}

#[test]
fn trailing_bytes_are_malformed() {
    let (der, pk) = self_signed();
    let w = Whitelist::new(&[pk]);
    let mut one = der.clone();
    one.push(0);
    assert_eq!(w.verify(&[one]), Err(RejectionKind::MalformedCertificate));
    let mut many = der;
    many.extend_from_slice(&[0x30, 0x00, 0xff]);
    assert_eq!(w.verify(&[many]), Err(RejectionKind::MalformedCertificate));
}

#[test]
fn every_truncation_is_malformed() {
    let (der, pk) = self_signed();
    let w = Whitelist::new(&[pk]);
    for i in 0..der.len() {
        assert_eq!(
            w.verify(&[der[..i].to_vec()]),
            Err(RejectionKind::MalformedCertificate),
            "truncated at {}",
            i
        );
    }
}

#[test]
fn garbage_is_malformed() {
    let (_, pk) = self_signed();
    let w = Whitelist::new(&[pk]);
    assert_eq!(w.verify(&[vec![]]), Err(RejectionKind::MalformedCertificate));
    assert_eq!(w.verify(&[vec![0x30, 0x00]]), Err(RejectionKind::MalformedCertificate));
    assert_eq!(
        w.verify(&[vec![0x30, 0x03, 0x02, 0x01, 0x05]]),
        Err(RejectionKind::MalformedCertificate)
    );
}

#[test]
fn empty_set_rejects_everything() {
    let (der, pk) = self_signed();
    let before = Whitelist::new(&[pk]);
    assert_eq!(before.verify(&[der.clone()]), Ok(()));
    let w = Whitelist::new(&[]);
    assert_eq!(w.verify(&[der.clone()]), Err(RejectionKind::UnknownKey));
    assert_eq!(w.verify(&[]), Err(RejectionKind::WrongCertificateCount));
    let mut longer = der;
    longer.push(1);
    assert_eq!(w.verify(&[longer]), Err(RejectionKind::MalformedCertificate));
}

#[test]
fn verify_is_idempotent() {
    let (der, pk) = self_signed();
    let (other_der, _) = self_signed();
    let w = Whitelist::new(&[pk]);
    for chain in [vec![der.clone()], vec![other_der], vec![], vec![der[..10].to_vec()]] {
        let first = w.verify(&chain);
        let second = w.verify(&chain);
        assert_eq!(first, second);
    }
    assert_eq!(w.verify(&[der]), Ok(()));
}

#[test]
fn duplicate_keys_are_held_once() {
    let key = [7u8; 65];
    let w = Whitelist::new(&[key, key]);
    assert!(w.contains(&key));
    assert!(!w.contains(&[8u8; 65]));
    assert!(!w.contains(&key[..64]));
}

#[test]
fn client_auth_policy() {
    let w = Whitelist::new(&[]);
    assert!(w.offer_client_auth());
    assert!(w.client_auth_mandatory());
    assert!(w.client_auth_root_subjects().is_empty());
}

#[test]
fn verdict_from_decoder_outcome() {
    let key = [9u8; 65];
    let w = Whitelist::new(&[key]);
    assert_eq!(w.verdict_for_parsed(&None), Err(RejectionKind::MalformedCertificate));
    assert_eq!(
        w.verdict_for_parsed(&Some((1, key.to_vec()))),
        Err(RejectionKind::MalformedCertificate)
    );
    assert_eq!(w.verdict_for_parsed(&Some((0, key.to_vec()))), Ok(()));
    assert_eq!(
        w.verdict_for_parsed(&Some((0, vec![9u8; 64]))),
        Err(RejectionKind::UnknownKey)
    );
}

#[test]
fn raw_key_length() {
    let bytes: Vec<u8> = (0..65u8).collect();
    let key = raw_key65(&bytes).unwrap();
    assert_eq!(key.to_vec(), bytes);
    assert_eq!(raw_key65(&bytes[..64]), None);
    assert_eq!(raw_key65(&[0u8; 66]), None);
    assert_eq!(raw_key65(&[]), None);
}

#[test]
fn ed25519_key_is_not_65_bytes() {
    let key_pair = rcgen::KeyPair::generate(&rcgen::PKCS_ED25519).unwrap();
    assert_eq!(get_pk65(&key_pair), None);
}

#[test]
fn der_outer_frame() {
    assert!(is_single_der_element(&[0x30, 0x00]));
    assert!(is_single_der_element(&[0x30, 0x02, 0x05, 0x00]));
    assert!(is_single_der_element(&[0x30, 0x81, 0x01, 0xaa]));
    assert!(is_single_der_element(&[0x30, 0x82, 0x00, 0x01, 0xaa]));
    assert!(!is_single_der_element(&[0x30, 0x01]));
    assert!(!is_single_der_element(&[0x30, 0x00, 0x00]));
    assert!(!is_single_der_element(&[0x30, 0x82, 0x00]));
    assert!(!is_single_der_element(&[0x30, 0x82, 0xff, 0xff, 0x00]));
    assert!(!is_single_der_element(&[0x3f, 0x00]));
    assert!(!is_single_der_element(&[0x30]));
    assert!(!is_single_der_element(&[]));
}

#[test]
fn pk65_is_the_raw_public_key() {
    let key_pair = rcgen::KeyPair::generate(&rcgen::PKCS_ECDSA_P256_SHA256).unwrap();
    let pk = get_pk65(&key_pair).unwrap();
    assert_eq!(pk.to_vec(), key_pair.public_key_raw().to_vec());
    assert_eq!(pk[0], 0x04);
}
