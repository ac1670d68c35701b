//! Certificates and private keys out of the content of a file. A file whose name ends in
//! `.der` holds one item as it is; any other file is read as PEM.

use vstd::prelude::*;

verus! {

/// Why certificates or a private key could not be loaded.
#[derive(Clone, Copy, PartialEq, Eq, Structural, Debug)]
pub enum LoadError {
    ReadCerts,
    InvalidCerts,
    ReadKey,
    MalformedPkcs8,
    MalformedPkcs1,
    NoPrivateKeys,
}

impl LoadError {
    /// The message for the user.
    pub open spec fn text(self) -> Seq<char> {
        match self {
            LoadError::ReadCerts => "failed to read certificate chain"@,
            LoadError::InvalidCerts => "invalid PEM-encoded certificate"@,
            LoadError::ReadKey => "failed to read private key"@,
            LoadError::MalformedPkcs8 => "malformed PKCS #8 private key"@,
            LoadError::MalformedPkcs1 => "malformed PKCS #1 private key"@,
            LoadError::NoPrivateKeys => "no private keys found"@,
        }
    }

    /// The message for the user.
    pub fn message(&self) -> (message: String)
        ensures
            message@ == self.text(),
    {
        match self {
            LoadError::ReadCerts => "failed to read certificate chain".to_string(),
            LoadError::InvalidCerts => "invalid PEM-encoded certificate".to_string(),
            LoadError::ReadKey => "failed to read private key".to_string(),
            LoadError::MalformedPkcs8 => "malformed PKCS #8 private key".to_string(),
            LoadError::MalformedPkcs1 => "malformed PKCS #1 private key".to_string(),
            LoadError::NoPrivateKeys => "no private keys found".to_string(),
        }
    }
}

/// An error of reading, as the standard library reports it.
#[verifier::external_type_specification]
#[verifier::external_body]
pub struct ExIoError(std::io::Error);

/// The bytes of a list of items.
pub open spec fn bytes_of(items: Seq<Vec<u8>>) -> Seq<Seq<u8>> {
    items.map_values(|item: Vec<u8>| item@)
}

/// The certificates in the PEM text `pem`, or nothing where it is not well-formed.
pub uninterp spec fn pem_certs(pem: Seq<u8>) -> Option<Seq<Seq<u8>>>;

/// The PKCS #8 private keys in the PEM text `pem`, or nothing where it is not well-formed.
pub uninterp spec fn pem_pkcs8_keys(pem: Seq<u8>) -> Option<Seq<Seq<u8>>>;

/// The PKCS #1 private keys in the PEM text `pem`, or nothing where it is not well-formed.
pub uninterp spec fn pem_rsa_keys(pem: Seq<u8>) -> Option<Seq<Seq<u8>>>;

/// Calls `rustls_pemfile::certs` on bytes in memory. Its result is claimed to depend on
/// the bytes alone.
#[verifier::external_body]
fn read_certs(pem: &[u8]) -> (found: Result<Vec<Vec<u8>>, std::io::Error>)
    ensures
        pem_certs(pem@) == match found {
            Ok(items) => Some(bytes_of(items@)),
            Err(_) => None,
        },
{
    let mut rd: &[u8] = pem;
    rustls_pemfile::certs(&mut rd)
}

/// Calls `rustls_pemfile::pkcs8_private_keys` on bytes in memory. Its result is claimed to
/// depend on the bytes alone.
#[verifier::external_body]
fn read_pkcs8_keys(pem: &[u8]) -> (found: Result<Vec<Vec<u8>>, std::io::Error>)
    ensures
        pem_pkcs8_keys(pem@) == match found {
            Ok(items) => Some(bytes_of(items@)),
            Err(_) => None,
        },
{
    let mut rd: &[u8] = pem;
    rustls_pemfile::pkcs8_private_keys(&mut rd)
}

/// Calls `rustls_pemfile::rsa_private_keys` on bytes in memory. Its result is claimed to
/// depend on the bytes alone.
#[verifier::external_body]
fn read_rsa_keys(pem: &[u8]) -> (found: Result<Vec<Vec<u8>>, std::io::Error>)
    ensures
        pem_rsa_keys(pem@) == match found {
            Ok(items) => Some(bytes_of(items@)),
            Err(_) => None,
        },
{
    let mut rd: &[u8] = pem;
    rustls_pemfile::rsa_private_keys(&mut rd)
}

/// A path without the slashes, and the components that stand for the same directory, at
/// its end. The rules are those of Unix paths: only a slash separates components.
pub open spec fn trimmed(path: Seq<char>) -> Seq<char>
    decreases path.len(),
{
    let n = path.len();
    if n > 0 && path[n - 1] == '/' {
        trimmed(path.drop_last())
    } else if n > 1 && path[n - 1] == '.' && path[n - 2] == '/' {
        trimmed(path.drop_last())
    } else {
        path
    }
}

/// Whether the last component of `path`, taken as a Unix path, has the extension `der`, and
/// something before it.
pub open spec fn has_der_extension(path: Seq<char>) -> bool {
    let name = trimmed(path);
    let n = name.len();
    &&& n >= 5
    &&& name[n - 5] != '/'
    &&& name[n - 4] == '.'
    &&& name[n - 3] == 'd'
    &&& name[n - 2] == 'e'
    &&& name[n - 1] == 'r'
}

/// Whether the last component of `path`, taken as a Unix path, has the extension `der`, and
/// something before it.
pub fn is_der(path: &str) -> (der: bool)
    ensures
        der == has_der_extension(path@),
{
    let mut n: usize = path.unicode_len();
    assert(path@.take(n as int) =~= path@);
    while n > 0 && (path.get_char(n - 1) == '/' || (n > 1 && path.get_char(n - 1) == '.'
        && path.get_char(n - 2) == '/'))
        invariant
            n <= path@.len(),
            trimmed(path@) == trimmed(path@.take(n as int)),
        decreases n,
    {
        assert(path@.take(n as int).drop_last() =~= path@.take(n - 1));
        n -= 1;
    }
    n >= 5 && path.get_char(n - 5) != '/' && path.get_char(n - 4) == '.' && path.get_char(n - 3)
        == 'd' && path.get_char(n - 2) == 'e' && path.get_char(n - 1) == 'r'
}

/// The certificate chain in a file. `content` is missing where the file could not be read.
pub open spec fn certs_of(filename: Seq<char>, content: Option<Seq<u8>>) -> Result<
    Seq<Seq<u8>>,
    LoadError,
> {
    match content {
        None => Err(LoadError::ReadCerts),
        Some(content) => if has_der_extension(filename) {
            Ok(seq![content])
        } else {
            match pem_certs(content) {
                Some(certs) => Ok(certs),
                None => Err(LoadError::InvalidCerts),
            }
        },
    }
}

/// The private key in a file: the first PKCS #8 key, or else the first PKCS #1 key.
/// `content` is missing where the file could not be read.
pub open spec fn private_key_of(filename: Seq<char>, content: Option<Seq<u8>>) -> Result<
    Seq<u8>,
    LoadError,
> {
    match content {
        None => Err(LoadError::ReadKey),
        Some(content) => if has_der_extension(filename) {
            Ok(content)
        } else {
            match pem_pkcs8_keys(content) {
                None => Err(LoadError::MalformedPkcs8),
                Some(keys) => if keys.len() > 0 {
                    Ok(keys[0])
                } else {
                    match pem_rsa_keys(content) {
                        None => Err(LoadError::MalformedPkcs1),
                        Some(keys) => if keys.len() > 0 {
                            Ok(keys[0])
                        } else {
                            Err(LoadError::NoPrivateKeys)
                        },
                    }
                },
            }
        },
    }
}

/// The bytes of a file, if it could be read.
pub open spec fn content_of(content: Option<Vec<u8>>) -> Option<Seq<u8>> {
    match content {
        Some(content) => Some(content@),
        None => None,
    }
}

/// The certificates that were found in a PEM file.
pub fn found_certs(found: Result<Vec<Vec<u8>>, std::io::Error>) -> (certs: Result<
    Vec<Vec<u8>>,
    LoadError,
>)
    ensures
        match found {
            Ok(found) => certs == Ok::<Vec<Vec<u8>>, LoadError>(found),
            Err(_) => certs == Err::<Vec<Vec<u8>>, LoadError>(LoadError::InvalidCerts),
        },
{
    match found {
        Ok(certs) => Ok(certs),
        Err(_) => Err(LoadError::InvalidCerts),
    }
}

/// The first of the PKCS #8 keys that were found in a PEM file, if there is any.
pub fn found_pkcs8_key(found: Result<Vec<Vec<u8>>, std::io::Error>) -> (key: Result<
    Option<Vec<u8>>,
    LoadError,
>)
    ensures
        match found {
            Ok(found) => key == Ok::<Option<Vec<u8>>, LoadError>(
                if found@.len() > 0 {
                    Some(found@[0])
                } else {
                    None
                },
            ),
            Err(_) => key == Err::<Option<Vec<u8>>, LoadError>(LoadError::MalformedPkcs8),
        },
{
    match found {
        Ok(mut keys) => if keys.len() > 0 {
            Ok(Some(keys.swap_remove(0)))
        } else {
            Ok(None)
        },
        Err(_) => Err(LoadError::MalformedPkcs8),
    }
}

/// The first of the PKCS #1 keys that were found in a PEM file.
pub fn found_rsa_key(found: Result<Vec<Vec<u8>>, std::io::Error>) -> (key: Result<
    Vec<u8>,
    LoadError,
>)
    ensures
        match found {
            Ok(found) => key == (if found@.len() > 0 {
                Ok::<Vec<u8>, LoadError>(found@[0])
            } else {
                Err(LoadError::NoPrivateKeys)
            }),
            Err(_) => key == Err::<Vec<u8>, LoadError>(LoadError::MalformedPkcs1),
        },
{
    match found {
        Ok(mut keys) => if keys.len() > 0 {
            Ok(keys.swap_remove(0))
        } else {
            Err(LoadError::NoPrivateKeys)
        },
        Err(_) => Err(LoadError::MalformedPkcs1),
    }
}

/// Loads a certificate chain out of the content of the file `filename`.
pub fn load_certs(filename: &str, content: Option<Vec<u8>>) -> (certs: Result<
    Vec<Vec<u8>>,
    LoadError,
>)
    ensures
        certs_of(filename@, content_of(content)) == match certs {
            Ok(certs) => Ok::<Seq<Seq<u8>>, LoadError>(bytes_of(certs@)),
            Err(e) => Err(e),
        },
        content is None ==> certs == Err::<Vec<Vec<u8>>, LoadError>(LoadError::ReadCerts),
        content matches Some(content) ==> (has_der_extension(filename@) ==> {
            &&& certs matches Ok(certs)
            &&& certs@.len() == 1
            &&& certs@[0]@ == content@
        }),
        content matches Some(content) ==> (!has_der_extension(filename@) ==> match pem_certs(
            content@,
        ) {
            Some(found) => {
                &&& certs matches Ok(certs)
                &&& certs@.len() == found.len()
                &&& forall|i: int| 0 <= i < found.len() ==> (#[trigger] certs@[i])@ == found[i]
            },
            None => certs == Err::<Vec<Vec<u8>>, LoadError>(LoadError::InvalidCerts),
        }),
{
    match content {
        None => Err(LoadError::ReadCerts),
        Some(content) => if is_der(filename) {
            let ghost bytes = content@;
            let certs = vec![content];
            assert(bytes_of(certs@) =~= seq![bytes]);
            Ok(certs)
        } else {
            found_certs(read_certs(content.as_slice()))
        },
    }
}

/// Loads a private key out of the content of the file `filename`.
pub fn load_private_key(filename: &str, content: Option<Vec<u8>>) -> (key: Result<
    Vec<u8>,
    LoadError,
>)
    ensures
        private_key_of(filename@, content_of(content)) == match key {
            Ok(key) => Ok::<Seq<u8>, LoadError>(key@),
            Err(e) => Err(e),
        },
        content is None ==> key == Err::<Vec<u8>, LoadError>(LoadError::ReadKey),
        content matches Some(content) ==> (has_der_extension(filename@) ==> {
            &&& key matches Ok(key)
            &&& key@ == content@
        }),
        content matches Some(content) ==> (!has_der_extension(filename@) ==> match (
            pem_pkcs8_keys(content@),
            pem_rsa_keys(content@),
        ) {
            (None, _) => key == Err::<Vec<u8>, LoadError>(LoadError::MalformedPkcs8),
            (Some(pkcs8), rsa) => if pkcs8.len() > 0 {
                key matches Ok(key) && key@ == pkcs8[0]
            } else {
                match rsa {
                    None => key == Err::<Vec<u8>, LoadError>(LoadError::MalformedPkcs1),
                    Some(rsa) => if rsa.len() > 0 {
                        key matches Ok(key) && key@ == rsa[0]
                    } else {
                        key == Err::<Vec<u8>, LoadError>(LoadError::NoPrivateKeys)
                    },
                }
            },
        }),
{
    match content {
        None => Err(LoadError::ReadKey),
        Some(content) => if is_der(filename) {
            Ok(content)
        } else {
            match found_pkcs8_key(read_pkcs8_keys(content.as_slice())) {
                Ok(Some(key)) => Ok(key),
                Ok(None) => found_rsa_key(read_rsa_keys(content.as_slice())),
                Err(e) => Err(e),
            }
        },
    }
}

/// A list of items keeps each of its items, in order.
pub proof fn bytes_of_exact(items: Seq<Vec<u8>>)
    ensures
        bytes_of(items).len() == items.len(),
        forall|i: int| 0 <= i < items.len() ==> #[trigger] bytes_of(items)[i] == items[i]@,
{
}

/// A PEM file gives every certificate in it, in order, and no other; it is refused only if
/// it is not well-formed.
pub proof fn chain_is_whole(filename: Seq<char>, content: Seq<u8>)
    requires
        !has_der_extension(filename),
    ensures
        match certs_of(filename, Some(content)) {
            Ok(certs) => pem_certs(content) == Some(certs),
            Err(e) => pem_certs(content) is None && e == LoadError::InvalidCerts,
        },
        content_of(None) is None,
        certs_of(filename, None) == Err::<Seq<Seq<u8>>, LoadError>(LoadError::ReadCerts),
{
}

/// A PEM file gives its first PKCS #8 key, whatever PKCS #1 keys it has, and its first
/// PKCS #1 key only where it has no PKCS #8 key.
pub proof fn first_key_is_taken(filename: Seq<char>, content: Seq<u8>)
    requires
        !has_der_extension(filename),
    ensures
        private_key_of(filename, Some(content)) matches Ok(key) ==> {
            &&& pem_pkcs8_keys(content) matches Some(pkcs8)
            &&& pkcs8.len() > 0 ==> key == pkcs8[0]
            &&& pkcs8.len() == 0 ==> (pem_rsa_keys(content) matches Some(rsa) && rsa.len() > 0
                && key == rsa[0])
        },
        private_key_of(filename, Some(content)) is Err <==> match (
            pem_pkcs8_keys(content),
            pem_rsa_keys(content),
        ) {
            (Some(pkcs8), Some(rsa)) => pkcs8.len() == 0 && rsa.len() == 0,
            (Some(pkcs8), None) => pkcs8.len() == 0,
            (None, _) => true,
        },
        private_key_of(filename, None) == Err::<Seq<u8>, LoadError>(LoadError::ReadKey),
{
}

/// A DER file is one item: the content as it is.
pub proof fn der_is_one_item(filename: Seq<char>, content: Seq<u8>)
    requires
        has_der_extension(filename),
    ensures
        certs_of(filename, Some(content)) matches Ok(certs) && certs.len() == 1 && certs[0]
            == content,
        private_key_of(filename, Some(content)) == Ok::<Seq<u8>, LoadError>(content),
{
}

/// A name in a directory has the extension if and only if the name alone does, and a slash
/// at the end makes no difference.
pub proof fn extension_is_of_the_name(dir: Seq<char>, stem: Seq<char>, extension: Seq<char>)
    requires
        stem.len() > 0,
        !stem.contains('/'),
        !extension.contains('/'),
        !extension.contains('.'),
        extension.len() > 0,
    ensures
        has_der_extension(stem + seq!['.'] + extension) <==> extension == seq!['d', 'e', 'r'],
        has_der_extension(dir + seq!['/'] + stem + seq!['.'] + extension) <==> extension
            == seq!['d', 'e', 'r'],
        has_der_extension(dir + seq!['/'] + stem + seq!['.'] + extension + seq!['/'])
            <==> extension == seq!['d', 'e', 'r'],
{
    let name = stem + seq!['.'] + extension;
    let path = dir + seq!['/'] + stem + seq!['.'] + extension;
    named_extension(name, stem, extension);
    assert(path =~= dir + seq!['/'] + name);
    named_extension(path, dir + seq!['/'] + stem, extension);
    assert((path + seq!['/']).drop_last() =~= path);
}

/// A name without a dot has no extension, nor has one that only starts with a dot.
pub proof fn plain_name_has_no_extension(dir: Seq<char>, name: Seq<char>)
    requires
        !name.contains('/'),
        !name.contains('.'),
        name.len() > 0,
    ensures
        !has_der_extension(name),
        !has_der_extension(dir + seq!['/'] + name),
        !has_der_extension(seq!['.'] + name),
        !has_der_extension(dir + seq!['/', '.'] + name),
{
    let paths = seq![
        name,
        dir + seq!['/'] + name,
        seq!['.'] + name,
        dir + seq!['/', '.'] + name,
    ];
    assert forall|k: int| 0 <= k < 4 implies !has_der_extension(#[trigger] paths[k]) by {
        let path = paths[k];
        let n = path.len();
        let m = name.len();
        assert(forall|j: int| 0 <= j < m ==> path[n - m + j] == #[trigger] name[j]);
        assert(path[n - 1] == name[m - 1]);
        assert(name.contains(name[m - 1]));
        assert(trimmed(path) == path);
        if n >= 5 && path[n - 4] == '.' && m >= 4 {
            assert(path[n - 4] == name[m - 4]);
            assert(name.contains(name[m - 4]));
        }
    }
    assert(!has_der_extension(paths[0]));
    assert(!has_der_extension(paths[1]));
    assert(!has_der_extension(paths[2]));
    assert(!has_der_extension(paths[3]));
}

proof fn named_extension(path: Seq<char>, before: Seq<char>, extension: Seq<char>)
    requires
        before.len() > 0,
        before.last() != '/',
        !extension.contains('/'),
        !extension.contains('.'),
        extension.len() > 0,
        path =~= before + seq!['.'] + extension,
    ensures
        has_der_extension(path) <==> extension == seq!['d', 'e', 'r'],
        trimmed(path) == path,
{
    let n = path.len();
    let m = extension.len();
    assert(forall|j: int| 0 <= j < m ==> path[n - m + j] == #[trigger] extension[j]);
    assert(path[n - 1] == extension[m - 1]);
    assert(extension.contains(extension[m - 1]));
    assert(path[n - m - 1] == '.');
    assert(path[n - m - 2] == before.last());
    if has_der_extension(path) {
        if m > 3 {
            assert(path[n - 4] == extension[m - 4]);
            assert(extension.contains(extension[m - 4]));
        }
        if m < 3 {
            assert(path[n - m - 1] == '.');
        }
        assert(m == 3);
        assert(extension =~= seq!['d', 'e', 'r']);
    }
    if extension == seq!['d', 'e', 'r'] {
        assert(path[n - 3] == extension[0]);
        assert(path[n - 2] == extension[1]);
        assert(path[n - 1] == extension[2]);
    }
}

} // verus!
