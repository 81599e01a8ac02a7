//! The protocol's tagged integers and the table of supported APIs.
use vstd::prelude::*;

verus! {

/// A 16-bit value that names no variant of the enum it was decoded into.
#[derive(Debug, Clone, Copy, PartialEq, Eq, Structural)]
pub struct InvalidEnumVariant;

/// The API keys this broker answers.
#[derive(Debug, Clone, Copy, PartialEq, Eq, Structural)]
pub enum KafkaApiKey {
    Fetch,
    ApiVersions,
}

/// Error codes carried in response bytes.
#[derive(Debug, Clone, Copy, PartialEq, Eq, Structural)]
pub enum KafkaError {
    NoError,
    UnsupportedVersion,
    UnknownTopic,
}

pub const FETCH_KEY: u16 = 1;
pub const API_VERSIONS_KEY: u16 = 18;
pub const NO_ERROR: u16 = 0;
pub const UNSUPPORTED_VERSION: u16 = 35;
pub const UNKNOWN_TOPIC: u16 = 100;

impl KafkaApiKey {
    pub open spec fn spec_code(self) -> u16 {
        match self {
            KafkaApiKey::Fetch => FETCH_KEY,
            KafkaApiKey::ApiVersions => API_VERSIONS_KEY,
        }
    }

    /// The key that `code` stands for, if any.
    pub open spec fn spec_from_code(code: u16) -> Option<KafkaApiKey> {
        if code == FETCH_KEY {
            Some(KafkaApiKey::Fetch)
        } else if code == API_VERSIONS_KEY {
            Some(KafkaApiKey::ApiVersions)
        } else {
            None
        }
    }

    /// The wire value of the key.
    pub fn code(self) -> (r: u16)
        ensures
            r == self.spec_code(),
    {
        match self {
            KafkaApiKey::Fetch => FETCH_KEY,
            KafkaApiKey::ApiVersions => API_VERSIONS_KEY,
        }
    }

    /// Decodes a wire value; an unknown value is an error.
    pub fn try_from_code(code: u16) -> (r: Result<KafkaApiKey, InvalidEnumVariant>)
        ensures
            match KafkaApiKey::spec_from_code(code) {
                Some(k) => r == Ok::<KafkaApiKey, InvalidEnumVariant>(k),
                None => r == Err::<KafkaApiKey, InvalidEnumVariant>(InvalidEnumVariant),
            },
    {
        if code == FETCH_KEY {
            Ok(KafkaApiKey::Fetch)
        } else if code == API_VERSIONS_KEY {
            Ok(KafkaApiKey::ApiVersions)
        } else {
            Err(InvalidEnumVariant)
        }
    }
}

impl KafkaError {
    pub open spec fn spec_code(self) -> u16 {
        match self {
            KafkaError::NoError => NO_ERROR,
            KafkaError::UnsupportedVersion => UNSUPPORTED_VERSION,
            KafkaError::UnknownTopic => UNKNOWN_TOPIC,
        }
    }

    /// The wire value of the error code.
    pub fn code(self) -> (r: u16)
        ensures
            r == self.spec_code(),
    {
        match self {
            KafkaError::NoError => NO_ERROR,
            KafkaError::UnsupportedVersion => UNSUPPORTED_VERSION,
            KafkaError::UnknownTopic => UNKNOWN_TOPIC,
        }
    }

    /// Decodes a wire value; an unknown value is an error.
    pub fn try_from_code(code: u16) -> (r: Result<KafkaError, InvalidEnumVariant>)
        ensures
            code == NO_ERROR ==> r == Ok::<KafkaError, InvalidEnumVariant>(KafkaError::NoError),
            code == UNSUPPORTED_VERSION ==> r == Ok::<KafkaError, InvalidEnumVariant>(KafkaError::UnsupportedVersion),
            code == UNKNOWN_TOPIC ==> r == Ok::<KafkaError, InvalidEnumVariant>(KafkaError::UnknownTopic),
            code != NO_ERROR && code != UNSUPPORTED_VERSION && code != UNKNOWN_TOPIC
                ==> r == Err::<KafkaError, InvalidEnumVariant>(InvalidEnumVariant),
    {
        if code == NO_ERROR {
            Ok(KafkaError::NoError)
        } else if code == UNSUPPORTED_VERSION {
            Ok(KafkaError::UnsupportedVersion)
        } else if code == UNKNOWN_TOPIC {
            Ok(KafkaError::UnknownTopic)
        } else {
            Err(InvalidEnumVariant)
        }
    }
}

/// One supported API with its inclusive version range.
#[derive(Debug, Clone, Copy, PartialEq, Eq, Structural)]
pub struct ApiVersionEntry {
    pub api_key: KafkaApiKey,
    pub min_version: u16,
    pub max_version: u16,
}

/// The supported APIs, in the order they are advertised.
pub open spec fn registry() -> Seq<ApiVersionEntry> {
    seq![
        ApiVersionEntry { api_key: KafkaApiKey::Fetch, min_version: 16, max_version: 16 },
        ApiVersionEntry { api_key: KafkaApiKey::ApiVersions, min_version: 4, max_version: 4 },
    ]
}

/// Whether the registry lists `key` with `version` inside its range.
pub open spec fn spec_supported(key: KafkaApiKey, version: u16) -> bool {
    exists|i: int|
        0 <= i < registry().len() && (#[trigger] registry()[i]).api_key == key
            && registry()[i].min_version <= version && version <= registry()[i].max_version
}

/// The supported APIs, in the order they are advertised.
pub fn versions() -> (r: Vec<ApiVersionEntry>)
    ensures
        r@ == registry(),
{
    let r = vec![
        ApiVersionEntry { api_key: KafkaApiKey::Fetch, min_version: 16, max_version: 16 },
        ApiVersionEntry { api_key: KafkaApiKey::ApiVersions, min_version: 4, max_version: 4 },
    ];
    assert(r@ =~= registry());
    r
}

/// The registry entry for `key`, if any.
pub fn find(key: KafkaApiKey) -> (r: Option<ApiVersionEntry>)
    ensures
        match r {
            Some(e) => e.api_key == key && registry().contains(e),
            None => forall|i: int| 0 <= i < registry().len() ==> registry()[i].api_key != key,
        },
{
    let table = versions();
    let mut i: usize = 0;
    while i < table.len()
        invariant
            table@ == registry(),
            0 <= i <= table@.len(),
            forall|j: int| 0 <= j < i ==> registry()[j].api_key != key,
        decreases table@.len() - i,
    {
        if table[i].api_key == key {
            assert(registry()[i as int] == table@[i as int]);
            return Some(table[i]);
        }
        i += 1;
    }
    None
}

/// Whether `version` of `key` is supported.
pub fn is_supported(key: KafkaApiKey, version: u16) -> (r: bool)
    ensures
        r == spec_supported(key, version),
{
    match find(key) {
        Some(e) => {
            let r = e.min_version <= version && version <= e.max_version;
            assert(registry()[0].api_key != registry()[1].api_key);
            r
        },
        None => false,
    }
}

}
