//! Choosing a certificate by the server name that a client asks for.

use crate::util::domain_index::DomainIndex;
use crate::util::pem;
use crate::util::pem::LoadError;
use std::collections::HashMap;
use std::sync::Arc;
use vstd::prelude::*;

verus! {

/// A certificate chain with its signing key, as rustls keeps it.
#[verifier::external_type_specification]
#[verifier::external_body]
pub struct ExCertifiedKey(rustls::sign::CertifiedKey);

/// The error by which rustls refuses a private key.
#[verifier::external_type_specification]
#[verifier::external_body]
pub struct ExSignError(rustls::sign::SignError);

/// The certificate chain that a `rustls::sign::CertifiedKey` holds.
pub uninterp spec fn cert_chain(certified: rustls::sign::CertifiedKey) -> Seq<Seq<u8>>;

/// The encoding that the signing key of a `rustls::sign::CertifiedKey` was parsed from.
pub uninterp spec fn key_encoding(certified: rustls::sign::CertifiedKey) -> Seq<u8>;

/// Calls `rustls::sign::any_supported_type` on an encoded private key, and packs the
/// signing key up without certificates (`rustls::sign::CertifiedKey::new`). Claims that
/// what comes back was parsed from that encoding. Whether it succeeds is left open: for
/// an elliptic curve key it depends on the random numbers of the system being available.
#[verifier::external_body]
fn any_supported_type(key: Vec<u8>) -> (parsed: Result<
    rustls::sign::CertifiedKey,
    rustls::sign::SignError,
>)
    ensures
        parsed matches Ok(certified) ==> {
            &&& key_encoding(certified) == key@
            &&& cert_chain(certified) == Seq::<Seq<u8>>::empty()
        },
{
    let key = rustls::sign::any_supported_type(&rustls::PrivateKey(key))?;
    Ok(rustls::sign::CertifiedKey::new(Vec::new(), key))
}

/// Calls `rustls::sign::CertifiedKey::new` on certificates and a signing key. Claims that
/// the result holds that chain and that key.
#[verifier::external_body]
fn with_chain(certified: rustls::sign::CertifiedKey, certs: Vec<Vec<u8>>) -> (packed:
    rustls::sign::CertifiedKey)
    ensures
        cert_chain(packed) == pem::bytes_of(certs@),
        key_encoding(packed) == key_encoding(certified),
{
    let certs = certs.into_iter().map(rustls::Certificate).collect();
    rustls::sign::CertifiedKey::new(certs, certified.key)
}

/// Whether bytes parse as the encoding of an end-entity certificate.
pub uninterp spec fn end_entity_parses(cert: Seq<u8>) -> bool;

/// Calls `rustls::sign::CertifiedKey::end_entity_cert`. Claims that it gives the first
/// certificate of the chain, and an error if and only if there is none.
#[verifier::external_body]
fn end_entity_cert(certified: &rustls::sign::CertifiedKey) -> (found: Result<
    &[u8],
    rustls::sign::SignError,
>)
    ensures
        match found {
            Ok(cert) => cert_chain(*certified).len() > 0 && cert@ == cert_chain(*certified)[0],
            Err(_) => cert_chain(*certified).len() == 0,
        },
{
    certified.end_entity_cert().map(|cert| cert.0.as_slice())
}

/// Calls `webpki::EndEntityCert::try_from` on bytes. Whether it succeeds is claimed to
/// depend on the bytes alone.
#[verifier::external_body]
fn parse_end_entity(cert: &[u8]) -> (parses: bool)
    ensures
        parses == end_entity_parses(cert@),
{
    webpki::EndEntityCert::try_from(cert).is_ok()
}

/// Calls the `Display` formatting of `rustls::Error::General`, which puts a fixed text in
/// front of the reason.
#[verifier::external_body]
fn general_error(why: &str) -> (shown: String)
    ensures
        shown@ == "unexpected error: "@ + why@,
{
    rustls::Error::General(why.to_string()).to_string()
}

/// Why the certificate of a listen address could not be loaded or used.
#[derive(Debug)]
pub enum SniError {
    /// The private key file `key` could not be loaded.
    LoadKey { key: String, e: LoadError },
    /// The private key in the file `key` is of no supported kind.
    UnsupportedKey { key: String },
    /// The certificate file `cert` could not be loaded.
    LoadCert { cert: String, e: LoadError },
    /// The certificate chain is empty.
    NoEndEntity,
    /// The first certificate of the chain is syntactically faulty.
    InvalidEndEntity,
}

/// What is wrong with a certificate chain, if anything is: it must start with the
/// certificate of the server, and that must parse.
pub open spec fn chain_fault(chain: Seq<Seq<u8>>) -> Option<SniError> {
    if chain.len() == 0 {
        Some(SniError::NoEndEntity)
    } else if !end_entity_parses(chain[0]) {
        Some(SniError::InvalidEndEntity)
    } else {
        None
    }
}

impl SniError {
    /// The message for the user.
    pub open spec fn text(self) -> Seq<char> {
        match self {
            SniError::LoadKey { key, e } => "err:load key => key:"@ + key@ + ", e"@ + e.text(),
            SniError::UnsupportedKey { key } => "err:load key => key:"@ + key@ + ", e:"@ + (
            "unexpected error: "@ + "invalid private key"@),
            SniError::LoadCert { cert, e } => "err:load cert => cert:"@ + cert@ + ", e"@ + e.text(),
            SniError::NoEndEntity => "unexpected error: "@
                + "No end-entity certificate in certificate chain"@,
            SniError::InvalidEndEntity => "unexpected error: "@
                + "End-entity certificate in certificate chain is syntactically invalid"@,
        }
    }

    /// The message for the user.
    pub fn message(&self) -> (message: String)
        ensures
            message@ == self.text(),
    {
        match self {
            SniError::LoadKey { key, e } => "err:load key => key:".to_string().concat(key).concat(
                ", e",
            ).concat(e.message().as_str()),
            SniError::UnsupportedKey { key } => "err:load key => key:".to_string().concat(
                key,
            ).concat(", e:").concat(general_error("invalid private key").as_str()),
            SniError::LoadCert { cert, e } => "err:load cert => cert:".to_string().concat(
                cert,
            ).concat(", e").concat(e.message().as_str()),
            SniError::NoEndEntity => general_error(
                "No end-entity certificate in certificate chain",
            ),
            SniError::InvalidEndEntity => general_error(
                "End-entity certificate in certificate chain is syntactically invalid",
            ),
        }
    }
}

/// The certificate files of a listen address: their names, and their contents where they
/// could be read.
#[derive(Debug)]
pub struct SslFiles {
    pub key: String,
    pub key_content: Option<Vec<u8>>,
    pub cert: String,
    pub cert_content: Option<Vec<u8>>,
}

impl SslFiles {
    /// The private key in the files.
    pub open spec fn private_key(self) -> Result<Seq<u8>, LoadError> {
        pem::private_key_of(self.key@, pem::content_of(self.key_content))
    }

    /// The certificate chain in the files.
    pub open spec fn chain(self) -> Result<Seq<Seq<u8>>, LoadError> {
        pem::certs_of(self.cert@, pem::content_of(self.cert_content))
    }

    /// Whether `certified` holds the key and the chain in the files.
    pub open spec fn certifies(self, certified: rustls::sign::CertifiedKey) -> bool {
        &&& self.private_key() == Ok::<Seq<u8>, LoadError>(key_encoding(certified))
        &&& self.chain() == Ok::<Seq<Seq<u8>>, LoadError>(cert_chain(certified))
    }

    /// Whether `e` says why the files could not be loaded. The key comes first.
    pub open spec fn refused_with(self, e: SniError) -> bool {
        match e {
            SniError::LoadKey { key, e } => key == self.key && self.private_key() == Err::<
                Seq<u8>,
                LoadError,
            >(e),
            SniError::UnsupportedKey { key } => key == self.key && self.private_key() is Ok,
            SniError::LoadCert { cert, e } => {
                &&& cert == self.cert
                &&& self.private_key() is Ok
                &&& self.chain() == Err::<Seq<Seq<u8>>, LoadError>(e)
            },
            SniError::NoEndEntity => false,
            SniError::InvalidEndEntity => false,
        }
    }

    /// Whether the files could be loaded and `e` says what is wrong with the chain.
    pub open spec fn faulty_with(self, e: SniError) -> bool {
        &&& self.private_key() is Ok
        &&& self.chain() matches Ok(chain)
        &&& chain_fault(chain) == Some(e)
    }
}

/// A listen address and the number of its domain.
#[derive(Debug)]
pub struct SniContext {
    pub index: i32,
    pub ssl: Option<SslFiles>,
}

/// Copies the content of a file.
fn clone_content(content: &Option<Vec<u8>>) -> (copy: Option<Vec<u8>>)
    ensures
        pem::content_of(copy) == pem::content_of(*content),
{
    match content {
        Some(content) => {
            let copy = content.clone();
            assert(copy@ =~= content@);
            Some(copy)
        },
        None => None,
    }
}

/// Puts the certificate chain in the files to their private key, given what parsing the
/// key came to.
pub fn certify(
    files: &SslFiles,
    parsed: Result<rustls::sign::CertifiedKey, rustls::sign::SignError>,
) -> (certified: Result<rustls::sign::CertifiedKey, SniError>)
    ensures
        match parsed {
            Ok(parsed) => match files.chain() {
                Ok(chain) => {
                    &&& certified matches Ok(certified)
                    &&& cert_chain(certified) == chain
                    &&& key_encoding(certified) == key_encoding(parsed)
                },
                Err(e) => certified == Err::<rustls::sign::CertifiedKey, SniError>(
                    SniError::LoadCert { cert: files.cert, e },
                ),
            },
            Err(_) => certified == Err::<rustls::sign::CertifiedKey, SniError>(
                SniError::UnsupportedKey { key: files.key },
            ),
        },
{
    match parsed {
        Ok(parsed) => match pem::load_certs(&files.cert, clone_content(&files.cert_content)) {
            Ok(certs) => Ok(with_chain(parsed, certs)),
            Err(e) => Err(SniError::LoadCert { cert: files.cert.clone(), e }),
        },
        Err(_) => Err(SniError::UnsupportedKey { key: files.key.clone() }),
    }
}

/// Loads the private key and the certificate chain in the files.
pub fn load_certified(files: &SslFiles) -> (certified: Result<rustls::sign::CertifiedKey, SniError>)
    ensures
        match certified {
            Ok(certified) => files.certifies(certified),
            Err(e) => files.refused_with(e),
        },
{
    match pem::load_private_key(&files.key, clone_content(&files.key_content)) {
        Ok(key) => certify(files, any_supported_type(key)),
        Err(e) => Err(SniError::LoadKey { key: files.key.clone(), e }),
    }
}

/// What came of looking for the domain that a client asks for.
#[derive(Clone, Copy, PartialEq, Eq, Structural, Debug)]
pub enum NameLookup {
    /// The client named no server.
    NoServerName,
    /// No domain matches the name.
    NoMatch,
    /// The domain with this number matches.
    Index(i32),
}

/// The certificates of a listener, by the numbers of its domains. Both parts are gone once
/// they have been taken over by another listener.
pub struct ResolvesServerCertUsingSNI {
    pub domain_index: Option<DomainIndex>,
    pub by_name: Option<HashMap<i32, Arc<rustls::sign::CertifiedKey>>>,
}

/// What a `ResolvesServerCertUsingSNI` holds.
#[verifier::ext_equal]
pub struct ResolverView {
    pub domain_index: Option<Map<i32, (String, i32)>>,
    pub by_name: Option<Map<i32, rustls::sign::CertifiedKey>>,
}

impl View for ResolvesServerCertUsingSNI {
    type V = ResolverView;

    open spec fn view(&self) -> ResolverView {
        ResolverView {
            domain_index: match self.domain_index {
                Some(domain_index) => Some(domain_index@),
                None => None,
            },
            by_name: match self.by_name {
                Some(by_name) => Some(
                    by_name@.map_values(|certified: Arc<rustls::sign::CertifiedKey>| *certified),
                ),
                None => None,
            },
        }
    }
}

impl ResolverView {
    /// Nothing, as after being taken over.
    pub open spec fn gone() -> ResolverView {
        ResolverView { domain_index: None, by_name: None }
    }

    /// Whether what `lookup` calls for is still there.
    pub open spec fn can_resolve(self, lookup: NameLookup) -> bool {
        &&& !(lookup is NoServerName) ==> self.domain_index is Some
        &&& lookup is Index ==> self.by_name is Some
    }

    /// The certificate that `lookup` leads to.
    pub open spec fn resolved(self, lookup: NameLookup) -> Option<rustls::sign::CertifiedKey> {
        match lookup {
            NameLookup::Index(index) => if self.by_name->0.contains_key(index) {
                Some(self.by_name->0[index])
            } else {
                None
            },
            _ => None,
        }
    }
}

/// The certificate files of a context that has any.
pub open spec fn ssl_files(ctxs: Seq<SniContext>, i: int) -> SslFiles {
    ctxs[i].ssl->0
}

/// Whether `i` is the last of the contexts with certificate files for the domain `index`.
pub open spec fn is_last_for(ctxs: Seq<SniContext>, index: i32, i: int) -> bool {
    &&& 0 <= i < ctxs.len()
    &&& ctxs[i].index == index
    &&& ctxs[i].ssl is Some
    &&& forall|j: int| i < j < ctxs.len() && ctxs[j].index == index ==> (#[trigger] ctxs[j]).ssl
        is None
}

/// Whether `by_name` holds, for each domain with certificate files, those of the last of
/// its contexts, and nothing else.
pub open spec fn holds_last(
    ctxs: Seq<SniContext>,
    by_name: Map<i32, rustls::sign::CertifiedKey>,
) -> bool {
    &&& forall|i: int|
        0 <= i < ctxs.len() && (#[trigger] ctxs[i]).ssl is Some ==> by_name.contains_key(
            ctxs[i].index,
        )
    &&& forall|index: i32| #[trigger]
        by_name.contains_key(index) ==> exists|i: int| #[trigger]
            is_last_for(ctxs, index, i) && ssl_files(ctxs, i).certifies(by_name[index])
}

/// Whether the files of the first `n` contexts are all in order.
pub open spec fn loadable(ctxs: Seq<SniContext>, n: int) -> bool {
    forall|i: int|
        0 <= i < n && (#[trigger] ctxs[i]).ssl is Some ==> {
            &&& ssl_files(ctxs, i).private_key() is Ok
            &&& ssl_files(ctxs, i).chain() matches Ok(chain)
            &&& chain_fault(chain) is None
        }
}

impl ResolvesServerCertUsingSNI {
    /// Loads the certificates of the contexts. The first context whose files are not in
    /// order gives the error.
    pub fn new(ctxs: &Vec<SniContext>, domain_index: DomainIndex) -> (made: Result<
        ResolvesServerCertUsingSNI,
        SniError,
    >)
        ensures
            match made {
                Ok(resolver) => {
                    &&& loadable(ctxs@, ctxs@.len() as int)
                    &&& resolver@.domain_index == Some(domain_index@)
                    &&& resolver@.by_name is Some
                    &&& holds_last(ctxs@, resolver@.by_name->0)
                },
                Err(e) => exists|i: int|
                    0 <= i < ctxs@.len() && (#[trigger] ctxs@[i]).ssl is Some && loadable(ctxs@, i)
                        && (ssl_files(ctxs@, i).refused_with(e) || ssl_files(ctxs@, i).faulty_with(
                        e,
                    )),
            },
            (forall|i: int| 0 <= i < ctxs@.len() ==> (#[trigger] ctxs@[i]).ssl is None)
                ==> made is Ok,
            loadable(ctxs@, ctxs@.len() as int) ==> (made matches Err(e) ==> e is UnsupportedKey),
    {
        let mut sni_rustls_map = ResolvesServerCertUsingSNI {
            domain_index: Some(domain_index),
            by_name: Some(HashMap::new()),
        };
        let mut n: usize = 0;
        assert(sni_rustls_map@.by_name->0 =~= Map::empty());
        while n < ctxs.len()
            invariant
                n <= ctxs@.len(),
                loadable(ctxs@, n as int),
                sni_rustls_map@.domain_index == Some(domain_index@),
                sni_rustls_map@.by_name is Some,
                holds_last(ctxs@.take(n as int), sni_rustls_map@.by_name->0),
            decreases ctxs@.len() - n,
        {
            let ghost before = sni_rustls_map@.by_name->0;
            let ghost seen = ctxs@.take(n as int);
            let ghost now = ctxs@.take(n + 1);
            assert(now =~= seen.push(ctxs@[n as int]));
            let ctx = &ctxs[n];
            match &ctx.ssl {
                None => {
                    proof {
                        holds_last_skip(seen, *ctx, before);
                    }
                },
                Some(files) => {
                    let certified = match load_certified(files) {
                        Ok(certified) => certified,
                        Err(e) => {
                            assert(ssl_files(ctxs@, n as int).refused_with(e));
                            return Err(e);
                        },
                    };
                    proof {
                        holds_last_add(seen, *ctx, before, certified);
                    }
                    match sni_rustls_map.add(ctx.index, certified) {
                        Ok(()) => {},
                        Err(e) => {
                            assert(ssl_files(ctxs@, n as int).faulty_with(e));
                            return Err(e);
                        },
                    }
                },
            }
            n += 1;
        }
        assert(ctxs@.take(n as int) =~= ctxs@);
        Ok(sni_rustls_map)
    }

    /// Adds a certificate for the domain `index`, in place of any it had. This fails if
    /// the certificate chain is syntactically faulty.
    pub fn add(&mut self, index: i32, ck: rustls::sign::CertifiedKey) -> (added: Result<
        (),
        SniError,
    >)
        requires
            old(self)@.by_name is Some,
        ensures
            added is Ok <==> cert_chain(ck).len() > 0 && end_entity_parses(cert_chain(ck)[0]),
            added == match chain_fault(cert_chain(ck)) {
                None => Ok::<(), SniError>(()),
                Some(e) => Err(e),
            },
            added is Ok ==> final(self)@ == (ResolverView {
                by_name: Some(old(self)@.by_name->0.insert(index, ck)),
                ..old(self)@
            }),
            added is Err ==> final(self)@ == old(self)@,
    {
        let parses = match end_entity_cert(&ck) {
            Ok(cert) => Some(parse_end_entity(cert)),
            Err(_) => None,
        };
        self.add_checked(index, ck, parses)
    }

    /// Adds a certificate for the domain `index`, in place of any it had, given whether the
    /// first certificate of the chain parses, if there is one.
    pub fn add_checked(
        &mut self,
        index: i32,
        ck: rustls::sign::CertifiedKey,
        parses: Option<bool>,
    ) -> (added: Result<(), SniError>)
        requires
            old(self)@.by_name is Some,
        ensures
            match parses {
                Some(true) => {
                    &&& added == Ok::<(), SniError>(())
                    &&& final(self)@ == (ResolverView {
                        by_name: Some(old(self)@.by_name->0.insert(index, ck)),
                        ..old(self)@
                    })
                },
                Some(false) => {
                    &&& added == Err::<(), SniError>(SniError::InvalidEndEntity)
                    &&& final(self)@ == old(self)@
                },
                None => {
                    &&& added == Err::<(), SniError>(SniError::NoEndEntity)
                    &&& final(self)@ == old(self)@
                },
            },
    {
        broadcast use vstd::std_specs::hash::group_hash_axioms;

        match parses {
            Some(true) => {
                let mut by_name = self.by_name.take();
                if let Some(map) = &mut by_name {
                    map.insert(index, Arc::new(ck));
                }
                self.by_name = by_name;
                assert(self@.by_name->0 =~= old(self)@.by_name->0.insert(index, ck));
                Ok(())
            },
            Some(false) => Err(SniError::InvalidEndEntity),
            None => Err(SniError::NoEndEntity),
        }
    }

    /// Takes over what `other` holds, when a configuration is loaded again. `other` is
    /// left with nothing.
    pub fn take_from(&mut self, other: &mut ResolvesServerCertUsingSNI)
        ensures
            final(self)@ == old(other)@,
            final(other)@ == ResolverView::gone(),
            final(other)@.domain_index is None,
            final(other)@.by_name is None,
    {
        self.domain_index = other.domain_index.take();
        self.by_name = other.by_name.take();
    }

    /// Whether there are no certificates.
    pub fn is_empty(&self) -> (empty: bool)
        requires
            self@.by_name is Some,
        ensures
            empty == (self@.by_name->0 =~= Map::<i32, rustls::sign::CertifiedKey>::empty()),
    {
        let empty = self.by_name.as_ref().unwrap().is_empty();
        assert(self@.by_name->0.dom() =~= self.by_name->0@.dom());
        empty
    }

    /// The certificate to present, given what came of looking for the domain that the
    /// client asks for.
    pub fn resolve(&self, lookup: NameLookup) -> (certified: Option<
        Arc<rustls::sign::CertifiedKey>,
    >)
        requires
            self@.can_resolve(lookup),
        ensures
            self@.resolved(lookup) == match certified {
                Some(certified) => Some(*certified),
                None => None,
            },
            lookup matches NameLookup::Index(index) ==> (certified is Some
                <==> self@.by_name->0.contains_key(index)),
            lookup matches NameLookup::Index(index) ==> (certified matches Some(certified)
                ==> *certified == self@.by_name->0[index]),
            !(lookup is Index) ==> certified is None,
    {
        broadcast use vstd::std_specs::hash::group_hash_axioms;

        match lookup {
            NameLookup::Index(index) => match self.by_name.as_ref().unwrap().get(&index) {
                Some(certified) => Some(certified.clone()),
                None => None,
            },
            _ => None,
        }
    }
}

/// The certificates of all the listeners that were ever made, each in a slot of its own.
/// A listener and the server that runs it both refer to a slot, so what is put into the
/// slot reaches the running server.
pub struct SniStore {
    slots: Vec<ResolvesServerCertUsingSNI>,
}

impl View for SniStore {
    type V = Seq<ResolverView>;

    closed spec fn view(&self) -> Seq<ResolverView> {
        self.slots@.map_values(|resolver: ResolvesServerCertUsingSNI| resolver@)
    }
}

impl SniStore {
    /// No slots.
    pub fn new() -> (store: Self)
        ensures
            store@ == Seq::<ResolverView>::empty(),
    {
        let store = SniStore { slots: Vec::new() };
        assert(store@ =~= Seq::empty());
        store
    }

    /// The number of slots.
    pub fn len(&self) -> (n: usize)
        ensures
            n == self@.len(),
    {
        self.slots.len()
    }

    /// Puts the certificates of a listener into a new slot.
    pub fn insert(&mut self, resolver: ResolvesServerCertUsingSNI) -> (slot: usize)
        ensures
            slot == old(self)@.len(),
            final(self)@ == old(self)@.push(resolver@),
    {
        let slot: usize = self.slots.len();
        self.slots.push(resolver);
        assert(self@ =~= old(self)@.push(resolver@));
        slot
    }

    /// The certificates in a slot.
    pub fn get(&self, slot: usize) -> (resolver: &ResolvesServerCertUsingSNI)
        requires
            slot < self@.len(),
        ensures
            resolver@ == self@[slot as int],
    {
        &self.slots[slot]
    }

    /// Moves what the slot `from` holds into the slot `to`.
    pub fn take_from(&mut self, to: usize, from: usize)
        requires
            to < old(self)@.len(),
            from < old(self)@.len(),
            to != from,
        ensures
            final(self)@ == old(self)@.update(to as int, old(self)@[from as int]).update(
                from as int,
                ResolverView::gone(),
            ),
            final(self)@.len() == old(self)@.len(),
            final(self)@[to as int] == old(self)@[from as int],
            final(self)@[from as int].domain_index is None,
            final(self)@[from as int].by_name is None,
            forall|slot: int|
                0 <= slot < old(self)@.len() && slot != to && slot != from
                    ==> #[trigger] final(self)@[slot] == old(self)@[slot],
    {
        let mut moved = ResolvesServerCertUsingSNI { domain_index: None, by_name: None };
        moved.take_from(&mut self.slots[from]);
        self.slots[to].take_from(&mut moved);
        assert(self@ =~= old(self)@.update(to as int, old(self)@[from as int]).update(
            from as int,
            ResolverView::gone(),
        ));
    }
}

/// A file whose content is there is taken by its bytes.
pub proof fn content_is_bytes(content: Vec<u8>)
    ensures
        pem::content_of(Some(content)) == Some(content@),
        pem::content_of(None) is None,
{
}

/// What was loaded out of PEM files holds the whole chain in the certificate file, from the
/// first certificate to the last, and the key in the key file: the first PKCS #8 key there,
/// or the first PKCS #1 key where there is none. What was loaded out of DER files holds
/// their contents as they are.
pub proof fn certified_from_files(files: SslFiles, certified: rustls::sign::CertifiedKey)
    requires
        files.certifies(certified),
    ensures
        files.key_content is Some,
        files.cert_content is Some,
        pem::has_der_extension(files.cert@) ==> cert_chain(certified).len() == 1 && cert_chain(
            certified,
        )[0] == files.cert_content->0@,
        !pem::has_der_extension(files.cert@) ==> pem::pem_certs(files.cert_content->0@) == Some(
            cert_chain(certified),
        ),
        pem::has_der_extension(files.key@) ==> key_encoding(certified) == files.key_content->0@,
        !pem::has_der_extension(files.key@) ==> {
            &&& pem::pem_pkcs8_keys(files.key_content->0@) matches Some(pkcs8)
            &&& pkcs8.len() > 0 ==> key_encoding(certified) == pkcs8[0]
            &&& pkcs8.len() == 0 ==> (pem::pem_rsa_keys(files.key_content->0@) matches Some(rsa)
                && rsa.len() > 0 && key_encoding(certified) == rsa[0])
        },
{
}

/// Files are refused for a reason, and the key comes first: for their key only if it could
/// not be read, is not well-formed or missing, or is of no supported kind; for their
/// certificates only if the key could be loaded and they could not.
pub proof fn refusal_has_a_reason(files: SslFiles, e: SniError)
    requires
        files.refused_with(e),
    ensures
        match e {
            SniError::LoadKey { key, e } => {
                &&& key == files.key
                &&& e == LoadError::ReadKey <==> files.key_content is None
                &&& e != LoadError::ReadKey ==> !pem::has_der_extension(files.key@)
                &&& e == LoadError::MalformedPkcs8 ==> pem::pem_pkcs8_keys(
                    files.key_content->0@,
                ) is None
                &&& e == LoadError::MalformedPkcs1 ==> pem::pem_rsa_keys(
                    files.key_content->0@,
                ) is None
                &&& e == LoadError::NoPrivateKeys ==> {
                    &&& pem::pem_pkcs8_keys(files.key_content->0@) matches Some(pkcs8)
                    &&& pkcs8.len() == 0
                    &&& pem::pem_rsa_keys(files.key_content->0@) matches Some(rsa)
                    &&& rsa.len() == 0
                }
                &&& e != LoadError::ReadCerts && e != LoadError::InvalidCerts
            },
            SniError::UnsupportedKey { key } => key == files.key && files.key_content is Some,
            SniError::LoadCert { cert, e } => {
                &&& cert == files.cert
                &&& files.key_content is Some
                &&& e == LoadError::ReadCerts || e == LoadError::InvalidCerts
                &&& e == LoadError::ReadCerts <==> files.cert_content is None
                &&& e == LoadError::InvalidCerts ==> !pem::has_der_extension(files.cert@)
                    && pem::pem_certs(files.cert_content->0@) is None
            },
            _ => false,
        },
{
}

/// A chain is faulty if and only if it is empty or does not start with a certificate that
/// parses; what follows the first certificate does not matter.
pub proof fn fault_is_of_the_first(chain: Seq<Seq<u8>>, first: Seq<u8>, rest: Seq<Seq<u8>>)
    ensures
        chain.len() == 0 ==> chain_fault(chain) == Some(SniError::NoEndEntity),
        chain_fault(seq![first] + rest) is None <==> end_entity_parses(first),
        chain_fault(seq![first] + rest) matches Some(e) ==> e == SniError::InvalidEndEntity,
{
    assert((seq![first] + rest)[0] == first);
}

/// Files are faulty only if they could be loaded and their chain is empty or starts with a
/// certificate that does not parse.
pub proof fn fault_has_a_reason(files: SslFiles, e: SniError)
    requires
        files.faulty_with(e),
    ensures
        files.key_content is Some,
        files.cert_content is Some,
        ({
            let content = files.cert_content->0@;
            if pem::has_der_extension(files.cert@) {
                e == SniError::InvalidEndEntity && !end_entity_parses(content)
            } else {
                &&& pem::pem_certs(content) matches Some(chain)
                &&& chain.len() == 0 ==> e == SniError::NoEndEntity
                &&& chain.len() > 0 ==> e == SniError::InvalidEndEntity && !end_entity_parses(
                    chain[0],
                )
            }
        }),
{
}

/// A context with certificate files that no later context for the same domain overrides
/// has its certificates in the resolver, under its own number; and what the resolver holds
/// under a number is there for such a context.
pub proof fn last_files_are_held(
    ctxs: Seq<SniContext>,
    by_name: Map<i32, rustls::sign::CertifiedKey>,
)
    requires
        holds_last(ctxs, by_name),
    ensures
        forall|i: int|
            #![trigger ctxs[i]]
            0 <= i < ctxs.len() && ctxs[i].ssl is Some && (forall|j: int|
                i < j < ctxs.len() && (#[trigger] ctxs[j]).index == ctxs[i].index ==> ctxs[j].ssl
                    is None) ==> {
                &&& by_name.contains_key(ctxs[i].index)
                &&& ctxs[i].ssl->0.certifies(by_name[ctxs[i].index])
            },
        forall|index: i32| #[trigger]
            by_name.contains_key(index) ==> exists|i: int|
                0 <= i < ctxs.len() && (#[trigger] ctxs[i]).index == index && ctxs[i].ssl is Some
                    && ctxs[i].ssl->0.certifies(by_name[index]),
{
    assert forall|i: int|
        #![trigger ctxs[i]]
        0 <= i < ctxs.len() && ctxs[i].ssl is Some && (forall|j: int|
            i < j < ctxs.len() && (#[trigger] ctxs[j]).index == ctxs[i].index ==> ctxs[j].ssl
                is None) implies {
        &&& by_name.contains_key(ctxs[i].index)
        &&& ctxs[i].ssl->0.certifies(by_name[ctxs[i].index])
    } by {
        let index = ctxs[i].index;
        assert(by_name.contains_key(index));
        let k = choose|k: int| #[trigger]
            is_last_for(ctxs, index, k) && ssl_files(ctxs, k).certifies(by_name[index]);
        assert(ctxs[k].ssl is Some);
        assert(k == i);
    }
    assert forall|index: i32| #[trigger] by_name.contains_key(index) implies exists|i: int|
        0 <= i < ctxs.len() && (#[trigger] ctxs[i]).index == index && ctxs[i].ssl is Some
            && ctxs[i].ssl->0.certifies(by_name[index]) by {
        let k = choose|k: int| #[trigger]
            is_last_for(ctxs, index, k) && ssl_files(ctxs, k).certifies(by_name[index]);
        assert(ctxs[k].index == index);
    }
}

/// Files that are in order have all that a certificate takes.
pub proof fn loadable_files(ctxs: Seq<SniContext>, n: int, i: int)
    requires
        loadable(ctxs, n),
        0 <= i < n,
        ctxs[i].ssl is Some,
    ensures
        ctxs[i].ssl->0.key_content is Some,
        ctxs[i].ssl->0.cert_content is Some,
        ({
            let files = ctxs[i].ssl->0;
            let content = files.cert_content->0@;
            if pem::has_der_extension(files.cert@) {
                end_entity_parses(content)
            } else {
                pem::pem_certs(content) matches Some(chain) && chain.len() > 0
                    && end_entity_parses(chain[0])
            }
        }),
{
}

/// A resolver shows what it holds for the domain that a client asks for, and nothing to a
/// client that names no server or a server that no domain matches.
pub proof fn held_is_resolved(v: ResolverView, index: i32)
    requires
        v.by_name is Some,
    ensures
        v.by_name->0.contains_key(index) ==> v.resolved(NameLookup::Index(index)) == Some(
            v.by_name->0[index],
        ),
        !v.by_name->0.contains_key(index) ==> v.resolved(NameLookup::Index(index)) is None,
        v.resolved(NameLookup::NoServerName) is None,
        v.resolved(NameLookup::NoMatch) is None,
        v.can_resolve(NameLookup::NoServerName),
        v.domain_index is Some ==> v.can_resolve(NameLookup::NoMatch) && v.can_resolve(
            NameLookup::Index(index),
        ),
{
}

/// The view of a resolver is what it holds, number by number.
pub proof fn resolver_view_exact(resolver: ResolvesServerCertUsingSNI)
    ensures
        resolver@.domain_index is Some <==> resolver.domain_index is Some,
        resolver.domain_index matches Some(domain_index) ==> resolver@.domain_index->0
            == domain_index.index_map@,
        resolver@.by_name is Some <==> resolver.by_name is Some,
        resolver.by_name matches Some(by_name) ==> resolver@.by_name->0.dom() == by_name@.dom(),
        resolver.by_name matches Some(by_name) ==> forall|index: i32| #[trigger]
            by_name@.contains_key(index) ==> resolver@.by_name->0[index] == *by_name@[index],
        ResolverView::gone().domain_index is None,
        ResolverView::gone().by_name is None,
{
    if resolver.by_name is Some {
        assert(resolver@.by_name->0.dom() =~= resolver.by_name->0@.dom());
    }
}

/// What a refusal says to the user.
pub proof fn refusal_messages(e: SniError)
    ensures
        match e {
            SniError::LoadKey { key, e: LoadError::ReadKey } => e.text() == "err:load key => key:"@
                + key@ + ", e"@ + "failed to read private key"@,
            SniError::LoadKey { key, e: LoadError::MalformedPkcs8 } => e.text()
                == "err:load key => key:"@ + key@ + ", e"@ + "malformed PKCS #8 private key"@,
            SniError::LoadKey { key, e: LoadError::MalformedPkcs1 } => e.text()
                == "err:load key => key:"@ + key@ + ", e"@ + "malformed PKCS #1 private key"@,
            SniError::LoadKey { key, e: LoadError::NoPrivateKeys } => e.text()
                == "err:load key => key:"@ + key@ + ", e"@ + "no private keys found"@,
            SniError::UnsupportedKey { key } => e.text() == "err:load key => key:"@ + key@ + ", e:"@
                + ("unexpected error: "@ + "invalid private key"@),
            SniError::LoadCert { cert, e: LoadError::ReadCerts } => e.text()
                == "err:load cert => cert:"@ + cert@ + ", e"@ + "failed to read certificate chain"@,
            SniError::LoadCert { cert, e: LoadError::InvalidCerts } => e.text()
                == "err:load cert => cert:"@ + cert@ + ", e"@ + "invalid PEM-encoded certificate"@,
            SniError::NoEndEntity => e.text() == "unexpected error: "@
                + "No end-entity certificate in certificate chain"@,
            SniError::InvalidEndEntity => e.text() == "unexpected error: "@
                + "End-entity certificate in certificate chain is syntactically invalid"@,
            _ => true,
        },
{
}

/// Whether two certificates have the same chain, and keys parsed from the same encoding.
pub open spec fn same_certificate(
    a: rustls::sign::CertifiedKey,
    b: rustls::sign::CertifiedKey,
) -> bool {
    &&& cert_chain(a) == cert_chain(b)
    &&& key_encoding(a) == key_encoding(b)
}

/// Contexts followed by more contexts: their files are all in order if and only if those
/// of both parts are, and the domains have the certificates of the second part, or else
/// those of the first.
pub proof fn later_contexts_override(
    a: Seq<SniContext>,
    b: Seq<SniContext>,
    of_a: Map<i32, rustls::sign::CertifiedKey>,
    of_b: Map<i32, rustls::sign::CertifiedKey>,
    of_both: Map<i32, rustls::sign::CertifiedKey>,
)
    requires
        holds_last(a, of_a),
        holds_last(b, of_b),
        holds_last(a + b, of_both),
    ensures
        loadable(a + b, (a + b).len() as int) <==> loadable(a, a.len() as int) && loadable(
            b,
            b.len() as int,
        ),
        of_both.dom() == of_a.dom().union(of_b.dom()),
        forall|index: i32| #[trigger]
            of_both.contains_key(index) ==> same_certificate(
                of_both[index],
                if of_b.contains_key(index) {
                    of_b[index]
                } else {
                    of_a[index]
                },
            ),
{
    let both = a + b;
    loadable_joined(a, b);
    assert forall|index: i32| #[trigger] of_both.contains_key(index) <==> of_a.contains_key(index)
        || of_b.contains_key(index) by {
        if of_a.contains_key(index) {
            let i = choose|i: int| #[trigger]
                is_last_for(a, index, i) && ssl_files(a, i).certifies(of_a[index]);
            assert(both[i] == a[i]);
        }
        if of_b.contains_key(index) {
            let i = choose|i: int| #[trigger]
                is_last_for(b, index, i) && ssl_files(b, i).certifies(of_b[index]);
            assert(both[a.len() + i] == b[i]);
        }
    }
    assert(of_both.dom() =~= of_a.dom().union(of_b.dom()));
    assert forall|index: i32| #[trigger] of_both.contains_key(index) implies same_certificate(
        of_both[index],
        if of_b.contains_key(index) {
            of_b[index]
        } else {
            of_a[index]
        },
    ) by {
        let k = choose|k: int| #[trigger]
            is_last_for(both, index, k) && ssl_files(both, k).certifies(of_both[index]);
        if of_b.contains_key(index) {
            let i = choose|i: int| #[trigger]
                is_last_for(b, index, i) && ssl_files(b, i).certifies(of_b[index]);
            assert(both[a.len() + i] == b[i]);
            assert(k >= a.len() + i);
            assert(both[k] == b[k - a.len()]);
        } else {
            let i = choose|i: int| #[trigger]
                is_last_for(a, index, i) && ssl_files(a, i).certifies(of_a[index]);
            assert(both[i] == a[i]);
            if k >= a.len() {
                assert(both[k] == b[k - a.len()]);
            }
            assert(both[k] == a[k]);
        }
    }
}

/// A context without certificate files, wherever it stands, makes no difference.
pub proof fn context_without_files_is_ignored(
    a: Seq<SniContext>,
    ctx: SniContext,
    b: Seq<SniContext>,
    without: Map<i32, rustls::sign::CertifiedKey>,
    with: Map<i32, rustls::sign::CertifiedKey>,
)
    requires
        ctx.ssl is None,
        holds_last(a + b, without),
        holds_last(a.push(ctx) + b, with),
    ensures
        loadable(a.push(ctx) + b, (a.push(ctx) + b).len() as int) <==> loadable(
            a + b,
            (a + b).len() as int,
        ),
        with.dom() == without.dom(),
        forall|index: i32| #[trigger]
            with.contains_key(index) ==> same_certificate(with[index], without[index]),
{
    let short = a + b;
    let long = a.push(ctx) + b;
    let up = |i: int|
        if i < a.len() {
            i
        } else {
            i + 1
        };
    let down = |i: int|
        if i < a.len() {
            i
        } else {
            i - 1
        };
    assert forall|i: int| 0 <= i < short.len() implies #[trigger] short[i] == long[up(i)] by {}
    assert forall|i: int| 0 <= i < long.len() && i != a.len() implies #[trigger] long[i]
        == short[down(i)] by {}
    assert(long[a.len() as int] == ctx);
    assert forall|index: i32| #[trigger] without.contains_key(index) implies with.contains_key(
        index,
    ) by {
        let i = choose|i: int| #[trigger]
            is_last_for(short, index, i) && ssl_files(short, i).certifies(without[index]);
        assert(long[up(i)] == short[i]);
    }
    assert forall|index: i32| #[trigger] with.contains_key(index) implies without.contains_key(
        index,
    ) && same_certificate(with[index], without[index]) by {
        let k = choose|k: int| #[trigger]
            is_last_for(long, index, k) && ssl_files(long, k).certifies(with[index]);
        assert(short[down(k)] == long[k]);
        let i = choose|i: int| #[trigger]
            is_last_for(short, index, i) && ssl_files(short, i).certifies(without[index]);
        assert(long[up(i)] == short[i]);
        assert(k >= up(i));
        assert(i >= down(k));
    }
    assert(with.dom() =~= without.dom());
    if loadable(short, short.len() as int) {
        assert forall|i: int| 0 <= i < long.len() && (#[trigger] long[i]).ssl is Some implies {
            &&& ssl_files(long, i).private_key() is Ok
            &&& ssl_files(long, i).chain() matches Ok(chain)
            &&& chain_fault(chain) is None
        } by {
            assert(short[down(i)] == long[i]);
        }
    }
    if loadable(long, long.len() as int) {
        assert forall|i: int| 0 <= i < short.len() && (#[trigger] short[i]).ssl is Some implies {
            &&& ssl_files(short, i).private_key() is Ok
            &&& ssl_files(short, i).chain() matches Ok(chain)
            &&& chain_fault(chain) is None
        } by {
            assert(long[up(i)] == short[i]);
        }
    }
}

proof fn loadable_joined(a: Seq<SniContext>, b: Seq<SniContext>)
    ensures
        loadable(a + b, (a + b).len() as int) <==> loadable(a, a.len() as int) && loadable(
            b,
            b.len() as int,
        ),
{
    let both = a + b;
    if loadable(both, both.len() as int) {
        assert forall|i: int| 0 <= i < a.len() && (#[trigger] a[i]).ssl is Some implies {
            &&& ssl_files(a, i).private_key() is Ok
            &&& ssl_files(a, i).chain() matches Ok(chain)
            &&& chain_fault(chain) is None
        } by {
            assert(both[i] == a[i]);
        }
        assert forall|i: int| 0 <= i < b.len() && (#[trigger] b[i]).ssl is Some implies {
            &&& ssl_files(b, i).private_key() is Ok
            &&& ssl_files(b, i).chain() matches Ok(chain)
            &&& chain_fault(chain) is None
        } by {
            assert(both[a.len() + i] == b[i]);
        }
    }
}

/// A certificate that was added is the one presented for its domain, until another is
/// added for that domain; the other domains keep theirs.
pub proof fn added_is_resolved(
    v: ResolverView,
    index: i32,
    ck: rustls::sign::CertifiedKey,
    lookup: NameLookup,
)
    requires
        v.by_name is Some,
    ensures
        ({
            let added = ResolverView { by_name: Some(v.by_name->0.insert(index, ck)), ..v };
            added.resolved(lookup) == if lookup == NameLookup::Index(index) {
                Some(ck)
            } else {
                v.resolved(lookup)
            }
        }),
{
}

proof fn holds_last_skip(
    seen: Seq<SniContext>,
    ctx: SniContext,
    by_name: Map<i32, rustls::sign::CertifiedKey>,
)
    requires
        holds_last(seen, by_name),
        ctx.ssl is None,
    ensures
        holds_last(seen.push(ctx), by_name),
{
    let now = seen.push(ctx);
    assert forall|index: i32| #[trigger] by_name.contains_key(index) implies exists|i: int|
        #[trigger] is_last_for(now, index, i) && ssl_files(now, i).certifies(by_name[index]) by {
        let i = choose|i: int| #[trigger]
            is_last_for(seen, index, i) && ssl_files(seen, i).certifies(by_name[index]);
        assert forall|j: int| i < j < now.len() && now[j].index == index implies (
        #[trigger] now[j]).ssl is None by {
            if j < seen.len() {
                assert(seen[j] == now[j]);
            }
        }
        assert(is_last_for(now, index, i));
    }
}

proof fn holds_last_add(
    seen: Seq<SniContext>,
    ctx: SniContext,
    by_name: Map<i32, rustls::sign::CertifiedKey>,
    certified: rustls::sign::CertifiedKey,
)
    requires
        holds_last(seen, by_name),
        ctx.ssl is Some,
        ctx.ssl->0.certifies(certified),
    ensures
        holds_last(seen.push(ctx), by_name.insert(ctx.index, certified)),
{
    let now = seen.push(ctx);
    let added = by_name.insert(ctx.index, certified);
    assert forall|index: i32| #[trigger] added.contains_key(index) implies exists|i: int|
        #[trigger] is_last_for(now, index, i) && ssl_files(now, i).certifies(added[index]) by {
        if index == ctx.index {
            assert(is_last_for(now, index, seen.len() as int));
        } else {
            assert(by_name.contains_key(index));
            let i = choose|i: int| #[trigger]
                is_last_for(seen, index, i) && ssl_files(seen, i).certifies(by_name[index]);
            assert forall|j: int| i < j < now.len() && now[j].index == index implies (
            #[trigger] now[j]).ssl is None by {
                assert(seen[j] == now[j]);
            }
            assert(is_last_for(now, index, i));
        }
    }
}

} // verus!
