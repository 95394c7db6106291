//! The certificates that a client trusts: those of its host, and those that it is told of.

use rustls::RootCertStore;
use vstd::prelude::*;

verus! {

/// What is kept of a trusted certificate: the subject, its public key, and the names that it may
/// vouch for, if they are restricted.
pub type TrustRoot = (Seq<u8>, Seq<u8>, Option<Seq<u8>>);

/// The store of trusted certificates of `rustls`.
#[verifier::external_type_specification]
#[verifier::external_body]
pub struct ExRootCertStore(rustls::RootCertStore);

/// What a store holds, in order.
pub uninterp spec fn store_roots(store: RootCertStore) -> Seq<TrustRoot>;

/// What `rustls` makes of a certificate that it is to trust: what is kept of it, or, in words, why
/// it is refused.
pub uninterp spec fn trust_root(certificate: Seq<u8>) -> Result<TrustRoot, Seq<char>>;

/// Calls `rustls::RootCertStore::empty`: a store that holds nothing.
#[verifier::external_body]
fn empty_store() -> (store: RootCertStore)
    ensures
        store_roots(store).len() == 0,
{
    RootCertStore::empty()
}

/// Calls `rustls::RootCertStore::add`: what is to be kept of the certificate goes to the end of the
/// store, or, if the certificate is refused, the store stays as it is. Both go by the bytes of the
/// certificate alone. The error is handed out as the text that it prints.
#[verifier::external_body]
fn add_root(store: &mut RootCertStore, certificate: &Vec<u8>) -> (result: Result<(), String>)
    ensures
        result is Ok <==> trust_root(certificate@) is Ok,
        result matches Err(refusal) ==> refusal@ == trust_root(certificate@)->Err_0,
        store_roots(*final(store)) == match trust_root(certificate@) {
            Ok(root) => store_roots(*old(store)).push(root),
            Err(_) => store_roots(*old(store)),
        },
{
    let der = rustls::pki_types::CertificateDer::from(certificate.as_slice());
    store.add(der).map_err(|error| error.to_string())
}

/// Why there is no store of trusted certificates.
#[derive(Debug, PartialEq, Eq)]
pub enum TrustFault<E> {
    /// The host's certificate at this index is refused.
    Native { index: usize, refusal: String },
    /// The certificates that the client is told of could not be read.
    Unreadable { error: E },
    /// The certificate at this index of those that the client is told of is refused.
    Configured { index: usize, refusal: String },
}

/// The bytes of each certificate.
pub open spec fn contents(certificates: Seq<Vec<u8>>) -> Seq<Seq<u8>> {
    certificates.map_values(|certificate: Vec<u8>| certificate@)
}

/// None of the certificates is refused.
pub open spec fn all_accepted(certificates: Seq<Seq<u8>>) -> bool {
    forall|i: int| 0 <= i < certificates.len() ==> trust_root(#[trigger] certificates[i]) is Ok
}

/// The certificate at `index` is the first that is refused, for the reason that `refusal` gives.
pub open spec fn first_refused(
    certificates: Seq<Seq<u8>>,
    index: int,
    refusal: Seq<char>,
) -> bool {
    &&& 0 <= index < certificates.len()
    &&& all_accepted(certificates.take(index))
    &&& trust_root(certificates[index]) == Err::<TrustRoot, Seq<char>>(refusal)
}

/// What is kept of each certificate, where none is refused.
pub open spec fn roots_of(certificates: Seq<Seq<u8>>) -> Seq<TrustRoot> {
    certificates.map_values(|certificate: Seq<u8>| trust_root(certificate)->Ok_0)
}

/// Adds certificates to a store, in order, up to the first that is refused. Gives its index and
/// why it is refused.
fn add_roots(store: &mut RootCertStore, certificates: &Vec<Vec<u8>>) -> (result: Result<
    (),
    (usize, String),
>)
    ensures
        match result {
            Ok(()) => {
                &&& all_accepted(contents(certificates@))
                &&& store_roots(*final(store)) == store_roots(*old(store)) + roots_of(
                    contents(certificates@),
                )
            },
            Err((index, refusal)) => {
                &&& first_refused(contents(certificates@), index as int, refusal@)
                &&& store_roots(*final(store)) == store_roots(*old(store)) + roots_of(
                    contents(certificates@).take(index as int),
                )
            },
        },
{
    let ghost all = contents(certificates@);
    let mut i: usize = 0;
    while i < certificates.len()
        invariant
            all == contents(certificates@),
            i <= certificates@.len(),
            all_accepted(all.take(i as int)),
            store_roots(*store) == store_roots(*old(store)) + roots_of(all.take(i as int)),
        decreases certificates@.len() - i,
    {
        assert(all[i as int] == certificates@[i as int]@);
        let added: Result<(), String> = add_root(store, &certificates[i]);
        if let Err(refusal) = added {
            return Err((i, refusal));
        }
        proof {
            let next = all.take(i + 1);
            assert(next =~= all.take(i as int).push(all[i as int]));
            assert(roots_of(next) =~= roots_of(all.take(i as int)).push(
                trust_root(all[i as int])->Ok_0,
            ));
            assert forall|j: int| 0 <= j < next.len() implies trust_root(
                #[trigger] next[j],
            ) is Ok by {
                if j < i {
                    assert(next[j] == all.take(i as int)[j]);
                }
            }
        }
        i = i + 1;
    }
    assert(all.take(i as int) =~= all);
    Ok(())
}

/// The certificates to trust: those of the host, and after them those that the client is told of,
/// if it is told of any. One certificate that is refused, or certificates that could not be read,
/// and there is no store at all; what comes first in that order is what is reported.
pub fn trusted_roots<E>(
    native: &Vec<Vec<u8>>,
    configured: Option<Result<Vec<Vec<u8>>, E>>,
) -> (result: Result<RootCertStore, TrustFault<E>>)
    ensures
        match result {
            Ok(store) => {
                let more = match configured {
                    Some(Ok(certificates)) => certificates@,
                    _ => Seq::empty(),
                };
                &&& store_roots(store).len() == native@.len() + more.len()
                &&& forall|i: int|
                    0 <= i < native@.len() ==> trust_root((#[trigger] native@[i])@) == Ok::<
                        TrustRoot,
                        Seq<char>,
                    >(store_roots(store)[i])
                &&& forall|i: int|
                    0 <= i < more.len() ==> trust_root((#[trigger] more[i])@) == Ok::<
                        TrustRoot,
                        Seq<char>,
                    >(store_roots(store)[native@.len() + i])
                &&& all_accepted(contents(native@))
                &&& match configured {
                    None => store_roots(store) == roots_of(contents(native@)),
                    Some(Ok(certificates)) => {
                        &&& all_accepted(contents(certificates@))
                        &&& store_roots(store) == roots_of(contents(native@)) + roots_of(
                            contents(certificates@),
                        )
                    },
                    Some(Err(_)) => false,
                }
            },
            Err(TrustFault::Native { index, refusal }) => first_refused(
                contents(native@),
                index as int,
                refusal@,
            ),
            Err(TrustFault::Unreadable { error }) => {
                &&& all_accepted(contents(native@))
                &&& configured == Some(Err::<Vec<Vec<u8>>, E>(error))
            },
            Err(TrustFault::Configured { index, refusal }) => {
                &&& all_accepted(contents(native@))
                &&& configured matches Some(Ok(certificates)) && first_refused(
                    contents(certificates@),
                    index as int,
                    refusal@,
                )
            },
        },
{
    let mut store: RootCertStore = empty_store();
    if let Err((index, refusal)) = add_roots(&mut store, native) {
        return Err(TrustFault::Native { index, refusal });
    }
    assert(store_roots(store) =~= roots_of(contents(native@)));
    assert forall|i: int| 0 <= i < native@.len() implies trust_root((#[trigger] native@[i])@) == Ok::<
        TrustRoot,
        Seq<char>,
    >(store_roots(store)[i]) by {
        assert(contents(native@)[i] == native@[i]@);
    }
    match configured {
        None => Ok(store),
        Some(Err(error)) => Err(TrustFault::Unreadable { error }),
        Some(Ok(certificates)) => match add_roots(&mut store, &certificates) {
            Ok(()) => {
                assert forall|i: int| 0 <= i < certificates@.len() implies trust_root(
                    (#[trigger] certificates@[i])@,
                ) == Ok::<TrustRoot, Seq<char>>(store_roots(store)[native@.len() + i]) by {
                    assert(contents(certificates@)[i] == certificates@[i]@);
                }
                Ok(store)
            },
            Err((index, refusal)) => Err(TrustFault::Configured { index, refusal }),
        },
    }
}

} // verus!
