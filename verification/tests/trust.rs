use longboy::trust::{trusted_roots, TrustFault};

type Trusted = Result<rustls::RootCertStore, TrustFault<&'static str>>;

fn der(tag: u8, parts: &[&[u8]]) -> Vec<u8> {
    let body = parts.concat();
    let mut bytes = vec![tag, u8::try_from(body.len()).unwrap()];
    bytes.extend(body);
    bytes
}

/// A certificate with this subject and public key, both as bare as can be.
fn certificate(subject: &[u8], key: &[u8]) -> Vec<u8> {
    let algorithm = der(0x30, &[&der(0x06, &[&[0x2a, 0x03]])]);
    let signed = der(
        0x30,
        &[
            &der(0xa0, &[&[0x02, 0x01, 0x02]]),
            &[0x02, 0x01, 0x07],
            &algorithm,
            &der(0x30, &[]),
            &der(0x30, &[]),
            &der(0x30, &[subject]),
            &der(0x30, &[key]),
        ],
    );
    der(0x30, &[&signed, &algorithm, &der(0x03, &[&[0x00, 0x01]])])
}

fn roots(trusted: Trusted) -> Vec<(Vec<u8>, Vec<u8>)> {
    let store = trusted.unwrap();
    store
        .roots
        .iter()
        .map(|root| (root.subject.to_vec(), root.subject_public_key_info.to_vec()))
        .collect()
}

#[test]
fn no_certificates_make_an_empty_store() {
    assert_eq!(roots(trusted_roots(&vec![], None)), vec![]);
    assert_eq!(roots(trusted_roots(&vec![], Some(Ok(vec![])))), vec![]);
}

#[test]
fn certificates_of_the_host_come_first() {
    let native = vec![certificate(b"one", b"k1"), certificate(b"two", b"k2")];
    let configured = vec![certificate(b"three", b"k3"), certificate(b"one", b"k1")];
    assert_eq!(
        roots(trusted_roots(&native, None)),
        vec![(b"one".to_vec(), b"k1".to_vec()), (b"two".to_vec(), b"k2".to_vec())]
    );
    assert_eq!(
        roots(trusted_roots(&native, Some(Ok(configured)))),
        vec![
            (b"one".to_vec(), b"k1".to_vec()),
            (b"two".to_vec(), b"k2".to_vec()),
            (b"three".to_vec(), b"k3".to_vec()),
            (b"one".to_vec(), b"k1".to_vec()),
        ]
    );
}

#[test]
fn refused_certificate_of_the_host_is_reported() {
    let native = vec![certificate(b"one", b"k1"), b"junk".to_vec(), vec![]];
    let faults: [Trusted; 3] = [
        trusted_roots(&native, None),
        trusted_roots(&native, Some(Ok(vec![vec![]]))),
        trusted_roots(&native, Some(Err("no such file"))),
    ];
    for fault in faults {
        assert_eq!(
            fault.unwrap_err(),
            TrustFault::Native {
                index: 1,
                refusal: "invalid peer certificate: BadEncoding".to_string(),
            }
        );
    }
}

#[test]
fn unreadable_certificates_are_reported() {
    let native = vec![certificate(b"one", b"k1")];
    let fault: Trusted = trusted_roots(&native, Some(Err("no such file")));
    assert_eq!(fault.unwrap_err(), TrustFault::Unreadable { error: "no such file" });
}

#[test]
fn refused_configured_certificate_is_reported() {
    let native = vec![certificate(b"one", b"k1")];
    let mut cut = certificate(b"two", b"k2");
    cut.pop();
    let configured = vec![certificate(b"two", b"k2"), certificate(b"three", b"k3"), cut];
    let fault: Trusted = trusted_roots(&native, Some(Ok(configured)));
    assert_eq!(
        fault.unwrap_err(),
        TrustFault::Configured {
            index: 2,
            refusal: "invalid peer certificate: BadEncoding".to_string(),
        }
    );
}
