//! The keys that the two sides know each other by, and the file that holds one.
use vstd::prelude::*;

verus! {

/// A public key, as its 32 bytes.
#[derive(Debug, Clone, Copy, PartialEq, Eq)]
pub struct PublicKey {
    pub bytes: [u8; 32],
}

/// A secret key, as its 32 bytes.
#[derive(Clone, Copy)]
pub struct SecretKey {
    pub bytes: [u8; 32],
}

/// Why a file holds no secret key.
#[derive(Debug, Clone, Copy, PartialEq, Eq, Structural)]
pub enum KeyError {
    /// The file does not have 32 bytes.
    WrongLength,
}

/// The secret key to use, and what to write down about it.
pub struct LoadedKey {
    pub secret_key: SecretKey,
    /// The public key that belongs to it, which is written down for reference.
    pub public_key: PublicKey,
    /// Whether the secret key is new, and has to be stored.
    pub generated: bool,
}

/// The bytes of the public key that belongs to the secret key with the bytes `secret`.
pub uninterp spec fn public_key_of(secret: Seq<u8>) -> Seq<u8>;

/// `SecretKey::from_bytes`, `SecretKey::public` and `PublicKey::as_bytes` of the crate
/// `iroh`: the Ed25519 public key of a secret key. It depends on the secret bytes alone.
#[verifier::external_body]
fn derive_public_key(secret: &[u8; 32]) -> (r: [u8; 32])
    ensures
        r@ == public_key_of(secret@),
{
    *iroh::SecretKey::from_bytes(secret).public().as_bytes()
}

/// `SecretKey::generate` of the crate `iroh`: 32 random bytes. Which ones is up to chance.
#[verifier::external_body]
fn random_secret_key() -> (r: [u8; 32]) {
    iroh::SecretKey::generate().to_bytes()
}

impl PublicKey {
    /// Whether this is the key `other`.
    pub fn same_as(&self, other: &PublicKey) -> (r: bool)
        ensures
            r == (self.bytes@ == other.bytes@),
    {
        let mut i: usize = 0;
        while i < 32
            invariant
                i <= 32,
                forall|j: int| 0 <= j < i ==> #[trigger] self.bytes@[j] == other.bytes@[j],
            decreases 32 - i,
        {
            if self.bytes[i] != other.bytes[i] {
                return false;
            }
            i += 1;
        }
        assert(self.bytes@ =~= other.bytes@);
        true
    }
}

impl SecretKey {
    /// A new secret key.
    pub fn generate() -> (r: SecretKey) {
        SecretKey { bytes: random_secret_key() }
    }

    /// The public key that belongs to this key.
    pub fn public(&self) -> (r: PublicKey)
        ensures
            r.bytes@ == public_key_of(self.bytes@),
    {
        PublicKey { bytes: derive_public_key(&self.bytes) }
    }

    /// The secret key that a file with the contents `bytes` holds: those bytes, where there
    /// are 32 of them.
    pub fn decode(bytes: &[u8]) -> (r: Result<SecretKey, KeyError>)
        ensures
            match r {
                Ok(key) => bytes.len() == 32 && key.bytes@ == bytes@,
                Err(error) => bytes.len() != 32 && error == KeyError::WrongLength,
            },
    {
        if bytes.len() != 32 {
            return Err(KeyError::WrongLength);
        }
        let mut key: [u8; 32] = [0u8; 32];
        let mut i: usize = 0;
        while i < 32
            invariant
                i <= 32,
                bytes.len() == 32,
                forall|j: int| 0 <= j < i ==> #[trigger] key@[j] == bytes@[j],
            decreases 32 - i,
        {
            key[i] = bytes[i];
            i += 1;
        }
        assert(key@ =~= bytes@);
        Ok(SecretKey { bytes: key })
    }
}

/// Whether `loaded` is what a key file with the contents `existing` leads to; `existing` is
/// none where there is no file.
pub open spec fn loads(existing: Option<Seq<u8>>, loaded: Result<LoadedKey, KeyError>) -> bool {
    match (existing, loaded) {
        (Some(bytes), Ok(key)) => bytes.len() == 32 && key.secret_key.bytes@ == bytes
            && !key.generated,
        (Some(bytes), Err(error)) => bytes.len() != 32 && error == KeyError::WrongLength,
        (None, Ok(key)) => key.generated,
        (None, Err(_)) => false,
    }
}

/// Takes the key from the contents of its file, or makes a new one where there is no file.
pub fn load_secret_key(existing: Option<&[u8]>) -> (r: Result<LoadedKey, KeyError>)
    ensures
        loads(
            match existing {
                Some(bytes) => Some(bytes@),
                None => None,
            },
            r,
        ),
        match existing {
            Some(bytes) => {
                &&& r is Ok <==> bytes@.len() == 32
                &&& r matches Ok(key) ==> key.secret_key.bytes@ == bytes@ && !key.generated
                &&& r matches Err(error) ==> error == KeyError::WrongLength
            },
            None => r is Ok && r->Ok_0.generated,
        },
        r matches Ok(key) ==> key.public_key.bytes@ == public_key_of(key.secret_key.bytes@),
{
    let (secret_key, generated) = match existing {
        Some(bytes) => match SecretKey::decode(bytes) {
            Ok(key) => (key, false),
            Err(error) => return Err(error),
        },
        None => (SecretKey::generate(), true),
    };
    Ok(LoadedKey { secret_key, public_key: secret_key.public(), generated })
}

/// A key that was made and stored is the key that the next start loads from its file: as it
/// was, and not made again.
pub proof fn law_stored_key_loads_back(
    first: Result<LoadedKey, KeyError>,
    second: Result<LoadedKey, KeyError>,
)
    requires
        loads(None, first),
        loads(Some(first->Ok_0.secret_key.bytes@), second),
    ensures
        second is Ok,
        second->Ok_0.secret_key.bytes@ == first->Ok_0.secret_key.bytes@,
        !second->Ok_0.generated,
{
}

/// A key file holds a key exactly where it has 32 bytes, and then those bytes are the key, whole
/// and unchanged; a file of any other length is refused. Without a file there is a new key.
pub proof fn law_key_file_is_the_key(
    existing: Option<Seq<u8>>,
    loaded: Result<LoadedKey, KeyError>,
)
    requires
        loads(existing, loaded),
    ensures
        existing matches Some(bytes) ==> {
            &&& bytes.len() == 32 ==> loaded is Ok && loaded->Ok_0.secret_key.bytes@ == bytes
                && !loaded->Ok_0.generated
            &&& bytes.len() != 32 ==> loaded == Err::<LoadedKey, KeyError>(KeyError::WrongLength)
        },
        existing is None ==> loaded is Ok && loaded->Ok_0.generated,
{
}

/// Files with different contents never give the same key.
pub proof fn law_different_files_are_different_keys(
    one: Seq<u8>,
    other: Seq<u8>,
    loaded: LoadedKey,
    other_loaded: LoadedKey,
)
    requires
        loads(Some(one), Ok(loaded)),
        loads(Some(other), Ok(other_loaded)),
        loaded.secret_key.bytes@ == other_loaded.secret_key.bytes@,
    ensures
        one == other,
{
}

/// Two keys are the same exactly where each of their 32 bytes is.
pub proof fn law_keys_are_their_bytes(one: PublicKey, other: PublicKey, r: bool)
    requires
        call_ensures(PublicKey::same_as, (&one, &other), r),
    ensures
        r <==> forall|i: int| 0 <= i < 32 ==> #[trigger] one.bytes@[i] == other.bytes@[i],
{
    if forall|i: int| 0 <= i < 32 ==> #[trigger] one.bytes@[i] == other.bytes@[i] {
        assert(one.bytes@ =~= other.bytes@);
    }
}

/// The key that is written down next to a loaded key is the one that belongs to it.
pub proof fn law_public_key_belongs_to_the_secret_key(
    existing: Option<&[u8]>,
    loaded: LoadedKey,
    public: PublicKey,
)
    requires
        call_ensures(load_secret_key, (existing,), Ok::<LoadedKey, KeyError>(loaded)),
        call_ensures(SecretKey::public, (&loaded.secret_key,), public),
    ensures
        loaded.public_key.bytes@ == public.bytes@,
{
}

} // verus!
